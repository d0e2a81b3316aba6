//! The bytes of a container's header, and the proof that decoding reads back
//! what was written.

use crate::container::{
    decode, declared_icon_length, declared_icon_offset, declared_icon_table, field_at,
    icon_in_bounds, total_length, ContainerError, ContainerView, FIELD_LEN,
};
use crate::wire::{fits_i32, i32_to_bytes, lemma_i32_bytes_round_trip};
use vstd::endian::endianness;
use vstd::prelude::*;

verus! {

/// The fields of a header that declares the given sizes and icon lengths, in
/// the order in which they are stored.
pub open spec fn header_fields(header_size: int, creds_size: int, icon_lengths: Seq<int>) -> Seq<
    int,
> {
    seq![header_size, creds_size, icon_lengths.len() as int] + icon_lengths
}

/// The bytes of a header that declares the given sizes and icon lengths.
pub open spec fn encode_header(header_size: int, creds_size: int, icon_lengths: Seq<int>) -> Seq<
    u8,
> {
    let fields = header_fields(header_size, creds_size, icon_lengths);
    let width = FIELD_LEN as int;
    Seq::new(
        (width * fields.len()) as nat,
        |at: int| i32_to_bytes(fields[at / width], endianness())[at % width],
    )
}

/// The table of icons of the given lengths that lie one after the other from
/// `start`.
pub open spec fn laid_out(start: int, lengths: Seq<int>) -> Seq<(int, int)> {
    Seq::new(
        lengths.len(),
        |index: int| (start + total_length(lengths.take(index)), lengths[index]),
    )
}

/// Whether every length is one that a container can declare for an icon.
pub open spec fn icon_lengths_valid(lengths: Seq<int>) -> bool {
    forall|index: int|
        0 <= index < lengths.len() ==> 0 <= #[trigger] lengths[index] && fits_i32(lengths[index])
}

proof fn lemma_total_length_step(lengths: Seq<int>, index: int)
    requires
        0 <= index < lengths.len(),
    ensures
        total_length(lengths.take(index + 1)) == total_length(lengths.take(index))
            + lengths[index],
{
    assert(lengths.take(index + 1).drop_last() =~= lengths.take(index));
}

proof fn lemma_total_length_prefix(lengths: Seq<int>, index: int)
    requires
        0 <= index <= lengths.len(),
        forall|k: int| 0 <= k < lengths.len() ==> 0 <= #[trigger] lengths[k],
    ensures
        0 <= total_length(lengths.take(index)) <= total_length(lengths),
    decreases lengths.len() - index,
{
    if index == lengths.len() {
        assert(lengths.take(index) =~= lengths);
        lemma_total_length_nonnegative(lengths);
    } else {
        lemma_total_length_step(lengths, index);
        lemma_total_length_prefix(lengths, index + 1);
        lemma_total_length_nonnegative(lengths.take(index));
    }
}

proof fn lemma_total_length_nonnegative(lengths: Seq<int>)
    requires
        forall|k: int| 0 <= k < lengths.len() ==> 0 <= #[trigger] lengths[k],
    ensures
        0 <= total_length(lengths),
    decreases lengths.len(),
{
    if lengths.len() > 0 {
        lemma_total_length_nonnegative(lengths.drop_last());
    }
}

proof fn lemma_encoded_field(
    buffer: Seq<u8>,
    header_size: int,
    creds_size: int,
    icon_lengths: Seq<int>,
    field: int,
)
    requires
        encode_header(header_size, creds_size, icon_lengths).is_prefix_of(buffer),
        0 <= field < 3 + icon_lengths.len(),
        fits_i32(header_fields(header_size, creds_size, icon_lengths)[field]),
    ensures
        field_at(buffer, 4 * field) == header_fields(header_size, creds_size, icon_lengths)[field],
{
    let fields = header_fields(header_size, creds_size, icon_lengths);
    let header = encode_header(header_size, creds_size, icon_lengths);
    let bytes = i32_to_bytes(fields[field], endianness());
    lemma_i32_bytes_round_trip(fields[field], endianness());
    assert forall|at: int| 0 <= at < 4 implies buffer.subrange(4 * field, 4 * field + 4)[at]
        == bytes[at] by {
        assert(buffer[4 * field + at] == header[4 * field + at]);
        assert((4 * field + at) / 4 == field);
        assert((4 * field + at) % 4 == at);
    }
    assert(buffer.subrange(4 * field, 4 * field + 4) =~= bytes);
}

proof fn lemma_encoded_icon_offset(
    buffer: Seq<u8>,
    header_size: int,
    creds_size: int,
    icon_lengths: Seq<int>,
    index: int,
)
    requires
        encode_header(header_size, creds_size, icon_lengths).is_prefix_of(buffer),
        fits_i32(header_size),
        fits_i32(creds_size),
        icon_lengths_valid(icon_lengths),
        0 <= index <= icon_lengths.len(),
    ensures
        declared_icon_offset(buffer, index) == header_size + creds_size + total_length(
            icon_lengths.take(index),
        ),
    decreases index,
{
    if index == 0 {
        lemma_encoded_field(buffer, header_size, creds_size, icon_lengths, 0);
        lemma_encoded_field(buffer, header_size, creds_size, icon_lengths, 1);
        assert(icon_lengths.take(0) =~= Seq::<int>::empty());
    } else {
        lemma_encoded_icon_offset(buffer, header_size, creds_size, icon_lengths, index - 1);
        lemma_encoded_field(buffer, header_size, creds_size, icon_lengths, 3 + (index - 1));
        lemma_total_length_step(icon_lengths, index - 1);
    }
}

/// Decoding a buffer that begins with an encoded header, and is long enough
/// for the payload and the icons that the header declares, gives back the
/// header's two sizes and, for each icon, its length and the offset at which
/// it lies after the payload and the icons before it.
pub proof fn lemma_decode_encoded(
    buffer: Seq<u8>,
    header_size: int,
    creds_size: int,
    icon_lengths: Seq<int>,
)
    requires
        0 <= header_size,
        0 <= creds_size,
        fits_i32(header_size),
        fits_i32(creds_size),
        fits_i32(icon_lengths.len() as int),
        icon_lengths_valid(icon_lengths),
        encode_header(header_size, creds_size, icon_lengths).is_prefix_of(buffer),
        header_size + creds_size + total_length(icon_lengths) <= buffer.len(),
    ensures
        decode(buffer) == Ok::<ContainerView, ContainerError>(
            ContainerView {
                header_size,
                creds_size,
                icon_table: laid_out(header_size + creds_size, icon_lengths),
            },
        ),
{
    let count = icon_lengths.len() as int;
    lemma_encoded_field(buffer, header_size, creds_size, icon_lengths, 0);
    lemma_encoded_field(buffer, header_size, creds_size, icon_lengths, 1);
    lemma_encoded_field(buffer, header_size, creds_size, icon_lengths, 2);
    lemma_total_length_nonnegative(icon_lengths);
    let expected = laid_out(header_size + creds_size, icon_lengths);
    assert forall|index: int| 0 <= index < count implies #[trigger] icon_in_bounds(
        buffer,
        index,
    ) && declared_icon_table(buffer)[index] == expected[index] by {
        lemma_encoded_field(buffer, header_size, creds_size, icon_lengths, 3 + index);
        lemma_encoded_icon_offset(buffer, header_size, creds_size, icon_lengths, index);
        lemma_total_length_step(icon_lengths, index);
        lemma_total_length_prefix(icon_lengths, index + 1);
    }
    assert forall|index: int| 0 <= index < count implies #[trigger] declared_icon_table(
        buffer,
    )[index] == expected[index] by {
        assert(icon_in_bounds(buffer, index));
    }
    assert(declared_icon_table(buffer) =~= laid_out(header_size + creds_size, icon_lengths));
}

} // verus!
