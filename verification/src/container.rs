//! The binary envelope of a catalog: three header fields, the icon-size
//! table, the JSON payload and the icon blobs that follow it.

use crate::wire::{i32_from_bytes, read_i32};
use vstd::endian::endianness;
use vstd::prelude::*;
use vstd::slice::slice_subrange;

verus! {

/// Length in bytes of the three fixed header fields.
pub const HEADER_LEN: usize = 12;

/// Length in bytes of one header field or icon-size entry.
pub const FIELD_LEN: usize = 4;

/// Why a buffer is not a catalog container.
#[derive(Debug, Clone, Copy, PartialEq, Eq, Structural)]
pub enum ContainerError {
    /// The buffer is too short to hold the three header fields.
    TruncatedHeader,
    /// The header size or the payload size is negative, or the JSON payload
    /// that they declare does not lie in the buffer.
    OutOfBounds,
    /// The icon count is negative, the icon-size table does not lie in the
    /// buffer, or an icon that it declares has a negative length or runs past
    /// the end of the buffer.
    CorruptIconTable,
}

/// What a container declares: the two sizes of its header and, for each icon
/// in table order, its offset in the buffer and its length.
pub struct ContainerView {
    /// Offset of the JSON payload region.
    pub header_size: int,
    /// Length of the JSON payload region.
    pub creds_size: int,
    /// Offset and length of each icon.
    pub icon_table: Seq<(int, int)>,
}

/// The sum of the given lengths.
pub open spec fn total_length(lengths: Seq<int>) -> int
    decreases lengths.len(),
{
    if lengths.len() == 0 {
        0
    } else {
        total_length(lengths.drop_last()) + lengths.last()
    }
}

impl ContainerView {
    /// Where the JSON payload ends and the icon blobs begin.
    pub open spec fn payload_end(self) -> int {
        self.header_size + self.creds_size
    }

    /// The lengths of the icons, in table order.
    pub open spec fn icon_lengths(self) -> Seq<int> {
        Seq::new(self.icon_table.len(), |index: int| self.icon_table[index].1)
    }

    /// Where the last icon ends; the end of the payload if there is no icon.
    pub open spec fn icons_end(self) -> int {
        if self.icon_table.len() == 0 {
            self.payload_end()
        } else {
            self.icon_table.last().0 + self.icon_table.last().1
        }
    }

    /// Whether the icons lie one after the other from the end of the payload,
    /// with no gap and no overlap.
    pub open spec fn contiguous(self) -> bool {
        forall|index: int|
            0 <= index < self.icon_table.len() ==> (#[trigger] self.icon_table[index]).0 == (
            if index == 0 {
                self.payload_end()
            } else {
                self.icon_table[index - 1].0 + self.icon_table[index - 1].1
            })
    }

    /// Whether the payload and every icon lie in a buffer of `buffer_len`
    /// bytes.
    pub open spec fn within(self, buffer_len: int) -> bool {
        &&& 0 <= self.header_size
        &&& 0 <= self.creds_size
        &&& self.payload_end() <= buffer_len
        &&& forall|index: int|
            0 <= index < self.icon_table.len() ==> 0 <= (#[trigger] self.icon_table[index]).1
                && self.icon_table[index].0 + self.icon_table[index].1 <= buffer_len
    }

    /// Whether this is a layout that a buffer of `buffer_len` bytes can have.
    pub open spec fn well_formed(self, buffer_len: int) -> bool {
        self.contiguous() && self.within(buffer_len)
    }

    /// Whether `icon_id` names an icon that the table holds.
    pub open spec fn has_icon(self, icon_id: Option<usize>) -> bool {
        icon_id is Some && icon_id->0 < self.icon_table.len()
    }

    /// The bytes of icon `icon_id` in `buffer`; no bytes where `icon_id` is
    /// absent or names no icon of the table.
    pub open spec fn icon_bytes(self, buffer: Seq<u8>, icon_id: Option<usize>) -> Seq<u8> {
        if self.has_icon(icon_id) {
            let (offset, length) = self.icon_table[icon_id->0 as int];
            buffer.subrange(offset, offset + length)
        } else {
            Seq::empty()
        }
    }

    /// The bytes of the JSON payload region in `buffer`.
    pub open spec fn payload_bytes(self, buffer: Seq<u8>) -> Seq<u8> {
        buffer.subrange(self.header_size, self.payload_end())
    }
}

/// The signed integer stored at `at` in `buffer`.
pub open spec fn field_at(buffer: Seq<u8>, at: int) -> int {
    i32_from_bytes(buffer.subrange(at, at + FIELD_LEN), endianness())
}

/// The header size that `buffer` declares.
pub open spec fn declared_header_size(buffer: Seq<u8>) -> int {
    field_at(buffer, 0)
}

/// The payload size that `buffer` declares.
pub open spec fn declared_creds_size(buffer: Seq<u8>) -> int {
    field_at(buffer, FIELD_LEN as int)
}

/// The number of icons that `buffer` declares.
pub open spec fn declared_icon_count(buffer: Seq<u8>) -> int {
    field_at(buffer, 2 * FIELD_LEN)
}

/// The length that `buffer` declares for icon `index`.
pub open spec fn declared_icon_length(buffer: Seq<u8>, index: int) -> int {
    field_at(buffer, HEADER_LEN + FIELD_LEN * index)
}

/// Where icon `index` starts: the first right after the payload, each other
/// one right after the icon before it.
pub open spec fn declared_icon_offset(buffer: Seq<u8>, index: int) -> int
    decreases index,
{
    if index <= 0 {
        declared_header_size(buffer) + declared_creds_size(buffer)
    } else {
        declared_icon_offset(buffer, index - 1) + declared_icon_length(buffer, index - 1)
    }
}

/// Whether the declared payload lies in the buffer.
pub open spec fn payload_in_bounds(buffer: Seq<u8>) -> bool {
    &&& 0 <= declared_header_size(buffer)
    &&& 0 <= declared_creds_size(buffer)
    &&& declared_header_size(buffer) + declared_creds_size(buffer) <= buffer.len()
}

/// Whether icon `index` has a length that is not negative and ends in the
/// buffer.
pub open spec fn icon_in_bounds(buffer: Seq<u8>, index: int) -> bool {
    &&& 0 <= declared_icon_length(buffer, index)
    &&& declared_icon_offset(buffer, index) + declared_icon_length(buffer, index) <= buffer.len()
}

/// Whether the icon-size table lies in the buffer and every icon it declares
/// does too.
pub open spec fn icon_table_consistent(buffer: Seq<u8>) -> bool {
    &&& 0 <= declared_icon_count(buffer)
    &&& HEADER_LEN + FIELD_LEN * declared_icon_count(buffer) <= buffer.len()
    &&& forall|index: int|
        0 <= index < declared_icon_count(buffer) ==> #[trigger] icon_in_bounds(buffer, index)
}

/// The icon table that `buffer` declares.
pub open spec fn declared_icon_table(buffer: Seq<u8>) -> Seq<(int, int)> {
    Seq::new(
        declared_icon_count(buffer) as nat,
        |index: int| (declared_icon_offset(buffer, index), declared_icon_length(buffer, index)),
    )
}

/// What decoding `buffer` gives: the declared layout, or the first of the
/// three errors that applies.
pub open spec fn decode(buffer: Seq<u8>) -> Result<ContainerView, ContainerError> {
    if buffer.len() < HEADER_LEN {
        Err(ContainerError::TruncatedHeader)
    } else if !payload_in_bounds(buffer) {
        Err(ContainerError::OutOfBounds)
    } else if !icon_table_consistent(buffer) {
        Err(ContainerError::CorruptIconTable)
    } else {
        Ok(
            ContainerView {
                header_size: declared_header_size(buffer),
                creds_size: declared_creds_size(buffer),
                icon_table: declared_icon_table(buffer),
            },
        )
    }
}

/// A catalog buffer together with the layout decoded from it.
#[derive(Debug)]
pub struct Container<'a> {
    buffer: &'a [u8],
    header_size: usize,
    creds_size: usize,
    icon_table: Vec<(usize, usize)>,
}

impl<'a> View for Container<'a> {
    type V = ContainerView;

    closed spec fn view(&self) -> ContainerView {
        ContainerView {
            header_size: self.header_size as int,
            creds_size: self.creds_size as int,
            icon_table: Seq::new(
                self.icon_table@.len(),
                |index: int| (self.icon_table@[index].0 as int, self.icon_table@[index].1 as int),
            ),
        }
    }
}

impl<'a> Container<'a> {
    /// The bytes of the buffer that the container was decoded from.
    pub closed spec fn bytes(&self) -> Seq<u8> {
        self.buffer@
    }

    #[verifier::type_invariant]
    spec fn decoded_from_buffer(&self) -> bool {
        decode(self.buffer@) == Ok::<ContainerView, ContainerError>(self@)
    }

    /// The buffer that the container was decoded from. Decoding it again
    /// gives the layout that the container holds.
    pub fn buffer(&self) -> (buffer: &'a [u8])
        ensures
            buffer@ == self.bytes(),
            decode(buffer@) == Ok::<ContainerView, ContainerError>(self@),
    {
        proof {
            use_type_invariant(self);
        }
        self.buffer
    }

    /// The offset at which the JSON payload region begins.
    pub fn header_size(&self) -> (size: usize)
        ensures
            size == self@.header_size,
    {
        self.header_size
    }

    /// The length of the JSON payload region.
    pub fn creds_size(&self) -> (size: usize)
        ensures
            size == self@.creds_size,
    {
        self.creds_size
    }

    /// The number of icons in the table.
    pub fn icon_count(&self) -> (count: usize)
        ensures
            count == self@.icon_table.len(),
    {
        self.icon_table.len()
    }

    /// Offset and length of each icon, in table order.
    pub fn icon_table(&self) -> (table: &Vec<(usize, usize)>)
        ensures
            table@.len() == self@.icon_table.len(),
            forall|index: int|
                0 <= index < table@.len() ==> self@.icon_table[index] == (
                    (#[trigger] table@[index]).0 as int,
                    table@[index].1 as int,
                ),
    {
        &self.icon_table
    }

    /// Offset and length of icon `index`, where the table holds it.
    pub fn icon_range(&self, index: usize) -> (range: Option<(usize, usize)>)
        ensures
            match range {
                Some((offset, length)) => index < self@.icon_table.len()
                    && self@.icon_table[index as int] == (offset as int, length as int),
                None => index >= self@.icon_table.len(),
            },
    {
        if index < self.icon_table.len() {
            Some(self.icon_table[index])
        } else {
            None
        }
    }

    /// The region of the buffer that holds the JSON payload, padding
    /// included.
    pub fn json_region(&self) -> (region: &'a [u8])
        ensures
            region@ == self@.payload_bytes(self.bytes()),
    {
        proof {
            use_type_invariant(self);
        }
        slice_subrange(self.buffer, self.header_size, self.header_size + self.creds_size)
    }

    /// The bytes of the icon that `icon_id` names: a view into the buffer,
    /// empty where `icon_id` is absent or names no icon of the table.
    pub fn icon(&self, icon_id: Option<usize>) -> (icon: &'a [u8])
        ensures
            icon@ == self@.icon_bytes(self.bytes(), icon_id),
    {
        proof {
            use_type_invariant(self);
        }
        match icon_id {
            Some(index) if index < self.icon_table.len() => {
                let (offset, length) = self.icon_table[index];
                assert(self@.icon_table == declared_icon_table(self.buffer@));
                assert(self@.icon_table[index as int] == (offset as int, length as int));
                assert(icon_in_bounds(self.buffer@, index as int));
                assert(offset + length <= self.buffer.len());
                slice_subrange(self.buffer, offset, offset + length)
            },
            _ => slice_subrange(self.buffer, 0, 0),
        }
    }
}

/// Decodes the envelope of a catalog buffer.
pub fn decode_container<'a>(buffer: &'a [u8]) -> (result: Result<Container<'a>, ContainerError>)
    ensures
        match result {
            Ok(container) => decode(buffer@) == Ok::<ContainerView, ContainerError>(container@)
                && container.bytes() == buffer@,
            Err(error) => decode(buffer@) == Err::<ContainerView, ContainerError>(error),
        },
{
    let len = buffer.len();
    if len < HEADER_LEN {
        return Err(ContainerError::TruncatedHeader);
    }
    let header_field = read_i32(buffer, 0);
    let creds_field = read_i32(buffer, FIELD_LEN);
    let count_field = read_i32(buffer, 2 * FIELD_LEN);
    if header_field < 0 || creds_field < 0 {
        return Err(ContainerError::OutOfBounds);
    }
    let header_size = header_field as usize;
    let creds_size = creds_field as usize;
    if header_size > len || creds_size > len - header_size {
        return Err(ContainerError::OutOfBounds);
    }
    if count_field < 0 {
        return Err(ContainerError::CorruptIconTable);
    }
    let icon_count = count_field as usize;
    if icon_count > (len - HEADER_LEN) / FIELD_LEN {
        return Err(ContainerError::CorruptIconTable);
    }
    let mut icon_table: Vec<(usize, usize)> = Vec::new();
    let mut cursor: usize = header_size + creds_size;
    let mut index: usize = 0;
    while index < icon_count
        invariant
            len == buffer@.len(),
            HEADER_LEN <= len,
            payload_in_bounds(buffer@),
            icon_count == declared_icon_count(buffer@),
            HEADER_LEN + FIELD_LEN * icon_count <= len,
            index <= icon_count,
            icon_table@.len() == index,
            cursor == declared_icon_offset(buffer@, index as int),
            cursor <= len,
            forall|k: int| 0 <= k < index ==> #[trigger] icon_in_bounds(buffer@, k),
            forall|k: int|
                0 <= k < index ==> (#[trigger] icon_table@[k]).0 == declared_icon_offset(
                    buffer@,
                    k,
                ) && icon_table@[k].1 == declared_icon_length(buffer@, k),
        decreases icon_count - index,
    {
        let length_field = read_i32(buffer, HEADER_LEN + FIELD_LEN * index);
        if length_field < 0 {
            assert(!icon_in_bounds(buffer@, index as int));
            return Err(ContainerError::CorruptIconTable);
        }
        let length = length_field as usize;
        if length > len - cursor {
            assert(!icon_in_bounds(buffer@, index as int));
            return Err(ContainerError::CorruptIconTable);
        }
        assert(icon_in_bounds(buffer@, index as int));
        icon_table.push((cursor, length));
        cursor = cursor + length;
        index = index + 1;
    }
    proof {
        let table = Seq::new(
            icon_table@.len(),
            |k: int| (icon_table@[k].0 as int, icon_table@[k].1 as int),
        );
        assert(table =~= declared_icon_table(buffer@));
        assert(icon_table_consistent(buffer@));
    }
    Ok(Container { buffer, header_size, creds_size, icon_table })
}

/// A buffer of fewer than twelve bytes has a truncated header, whatever it
/// holds.
pub proof fn lemma_short_buffer_is_truncated(buffer: Seq<u8>)
    requires
        buffer.len() < HEADER_LEN,
    ensures
        decode(buffer) == Err::<ContainerView, ContainerError>(ContainerError::TruncatedHeader),
{
}

/// A layout that decoding gives is well formed for its buffer: payload and
/// icons lie in the buffer, and the icons follow the payload one after the
/// other.
pub proof fn lemma_decoded_layout_well_formed(buffer: Seq<u8>)
    requires
        decode(buffer) is Ok,
    ensures
        decode(buffer)->Ok_0.well_formed(buffer.len() as int),
{
    let layout = decode(buffer)->Ok_0;
    assert forall|index: int| 0 <= index < layout.icon_table.len() implies 0 <= (
    #[trigger] layout.icon_table[index]).1 && layout.icon_table[index].0
        + layout.icon_table[index].1 <= buffer.len() by {
        assert(icon_in_bounds(buffer, index));
    }
}

/// In a contiguous layout the last icon ends as many bytes after the payload
/// as the icon lengths add up to.
pub proof fn lemma_icons_end(layout: ContainerView)
    requires
        layout.contiguous(),
    ensures
        layout.icons_end() == layout.payload_end() + total_length(layout.icon_lengths()),
    decreases layout.icon_table.len(),
{
    if layout.icon_table.len() > 0 {
        let shorter = ContainerView { icon_table: layout.icon_table.drop_last(), ..layout };
        assert forall|index: int| 0 <= index < shorter.icon_table.len() implies (
        #[trigger] shorter.icon_table[index]).0 == (if index == 0 {
            shorter.payload_end()
        } else {
            shorter.icon_table[index - 1].0 + shorter.icon_table[index - 1].1
        }) by {
            assert(shorter.icon_table[index] == layout.icon_table[index]);
        }
        lemma_icons_end(shorter);
        assert(shorter.icon_lengths() =~= layout.icon_lengths().drop_last());
        let last = layout.icon_table.len() - 1;
        assert(layout.icon_table[last].0 == shorter.icons_end());
    } else {
        assert(layout.icon_lengths() =~= Seq::<int>::empty());
    }
}

/// Where a buffer is exactly as long as its icons need, the icon lengths add
/// up to the number of bytes that follow the payload.
pub proof fn lemma_icon_lengths_fill_trailer(buffer: Seq<u8>)
    requires
        decode(buffer) is Ok,
        decode(buffer)->Ok_0.icons_end() == buffer.len(),
    ensures
        total_length(decode(buffer)->Ok_0.icon_lengths()) == buffer.len() - decode(
            buffer,
        )->Ok_0.payload_end(),
{
    lemma_decoded_layout_well_formed(buffer);
    lemma_icons_end(decode(buffer)->Ok_0);
}

} // verus!
