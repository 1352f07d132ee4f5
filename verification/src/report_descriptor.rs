//! Framing of a report descriptor: one item at the head of a byte slice,
//! and the whole buffer as a sequence of items.

use crate::tag::{ReportItemType, Tag, LONG_ITEM_TAG};
use vstd::prelude::*;
use vstd::slice::{slice_subrange, slice_to_vec};

verus! {

/// The size of the buffer that a device fills with its report descriptor:
/// no descriptor is longer.
pub const HID_MAX_DESCRIPTOR_SIZE: usize = 4096;

/// The bytes of a report descriptor as they were fetched from a device.
pub struct RawReport(pub(crate) Vec<u8>);

impl View for RawReport {
    type V = Seq<u8>;

    closed spec fn view(&self) -> Seq<u8> {
        self.0@
    }
}

impl RawReport {
    /// Takes the bytes of a descriptor as they are.
    pub fn new(data: Vec<u8>) -> (report: RawReport)
        ensures
            report@ == data@,
    {
        RawReport(data)
    }

    /// Keeps the first `size` bytes of a buffer that a device filled, where
    /// the buffer holds that many.
    pub fn from_buffer(buffer: &[u8], size: usize) -> (report: Option<RawReport>)
        ensures
            report is Some <==> size <= buffer@.len(),
            report matches Some(r) ==> r@ == buffer@.take(size as int),
    {
        if size > buffer.len() {
            return None;
        }
        Some(RawReport(slice_to_vec(slice_subrange(buffer, 0, size))))
    }

    /// The bytes of the descriptor.
    pub fn data(&self) -> (bytes: &[u8])
        ensures
            bytes@ == self@,
    {
        self.0.as_slice()
    }

    /// The items of the descriptor, in order, each with its payload
    /// borrowed from this buffer. Fails where the last item is cut short.
    pub fn items(&self) -> (result: Result<Vec<ReportItem<'_>>, ParseError>)
        ensures
            result is Ok <==> items_of(self@) is Some,
            result matches Ok(items) ==> {
                &&& items_of(self@) == Some(views_of(items@))
                &&& total_len(views_of(items@)) == self@.len()
                &&& forall|i: int| 0 <= i < items@.len() ==> (#[trigger] items@[i])@.wf()
            },
            result matches Err(e) ==> e == ParseError::Truncated,
    {
        ReportItem::parse_all(self.data())
    }
}

/// The framing rule that produced an item.
#[derive(Debug, Clone, Copy, PartialEq, Eq, Structural)]
pub enum ReportItemFormat {
    Short,
    Long,
}

impl ReportItemFormat {
    /// The number of bytes in front of the payload: the prefix byte, and for
    /// a long item the length byte and the tag byte as well.
    pub open spec fn spec_header_len(self) -> nat {
        match self {
            ReportItemFormat::Short => 1,
            ReportItemFormat::Long => 3,
        }
    }

    /// The number of bytes in front of the payload.
    pub fn header_len(self) -> (n: usize)
        ensures
            n == self.spec_header_len(),
    {
        match self {
            ReportItemFormat::Short => 1,
            ReportItemFormat::Long => 3,
        }
    }
}

/// Why an item could not be framed.
#[derive(Debug, Clone, Copy, PartialEq, Eq, Structural)]
pub enum ParseError {
    /// The slice ends before the item does: its header or its payload
    /// needs more bytes than are left.
    Truncated,
}

/// What an item is, with its payload as a sequence of bytes.
pub struct ReportItemView {
    pub typ: ReportItemType,
    pub tag: Tag,
    pub format: ReportItemFormat,
    pub data: Seq<u8>,
}

impl ReportItemView {
    /// The number of bytes the item occupies in the descriptor.
    pub open spec fn encoded_len(self) -> nat {
        self.format.spec_header_len() + self.data.len()
    }

    /// What holds of every framed item: its tag lies in the namespace of
    /// its class, so it is never the long item mark, and its payload is as
    /// long as its encoding can say.
    pub open spec fn wf(self) -> bool {
        &&& self.tag.spec_belongs_to(self.typ)
        &&& match self.format {
            ReportItemFormat::Short => {
                self.data.len() <= 3 && self.tag.spec_value() < LONG_ITEM_TAG
            },
            ReportItemFormat::Long => self.data.len() <= 255,
        }
    }
}

/// Bits 0 and 1 of a prefix byte: the payload length of a short item.
pub open spec fn size_bits(prefix: u8) -> u8 {
    prefix % 4
}

/// Bits 2 and 3 of a prefix byte: the class of the item.
pub open spec fn class_bits(prefix: u8) -> u8 {
    (prefix / 4) % 4
}

/// Bits 4 to 7 of a prefix byte: the tag of a short item, or the long item
/// mark.
pub open spec fn tag_bits(prefix: u8) -> u8 {
    prefix / 16
}

/// Whether a prefix byte announces the long encoding.
pub open spec fn is_long(prefix: u8) -> bool {
    tag_bits(prefix) == LONG_ITEM_TAG
}

/// The number of bytes that the item at the head of `s` occupies by its own
/// header, if `s` holds that header whole: one more than the size bits for
/// a short item, three more than the length byte for a long one.
pub open spec fn declared_len(s: Seq<u8>) -> Option<nat> {
    if s.len() == 0 {
        None
    } else if is_long(s[0]) {
        if s.len() < 3 {
            None
        } else {
            Some((3 + s[1]) as nat)
        }
    } else {
        Some((1 + size_bits(s[0])) as nat)
    }
}

/// Whether `s` ends before the item at its head does.
pub open spec fn is_truncated(s: Seq<u8>) -> bool {
    match declared_len(s) {
        Some(n) => s.len() < n,
        None => true,
    }
}

/// The item at the head of `s`, where `s` holds it whole. The class comes
/// from the prefix byte, for a long item too; the tag byte of a long item
/// is resolved in the namespace of that class.
pub open spec fn head_item(s: Seq<u8>) -> ReportItemView {
    let typ = ReportItemType::spec_parse(class_bits(s[0]));
    if is_long(s[0]) {
        ReportItemView {
            typ,
            tag: Tag::spec_resolve(s[2], typ),
            format: ReportItemFormat::Long,
            data: s.subrange(3, 3 + s[1]),
        }
    } else {
        ReportItemView {
            typ,
            tag: Tag::spec_parse(tag_bits(s[0]), typ),
            format: ReportItemFormat::Short,
            data: s.subrange(1, 1 + size_bits(s[0])),
        }
    }
}

/// The items that `s` is made of, in order, where it can be cut into
/// whole items from its first byte to its last. The empty buffer holds no
/// item; a buffer whose last item is cut short holds none at all.
pub open spec fn items_of(s: Seq<u8>) -> Option<Seq<ReportItemView>>
    decreases s.len(),
{
    if s.len() == 0 {
        Some(Seq::empty())
    } else if is_truncated(s) {
        None
    } else {
        match items_of(s.skip(declared_len(s).unwrap() as int)) {
            Some(rest) => Some(seq![head_item(s)] + rest),
            None => None,
        }
    }
}

/// The number of bytes that a sequence of items occupies.
pub open spec fn total_len(items: Seq<ReportItemView>) -> nat
    decreases items.len(),
{
    if items.len() == 0 {
        0
    } else {
        items[0].encoded_len() + total_len(items.drop_first())
    }
}

/// What each of the items is.
pub open spec fn views_of(items: Seq<ReportItem>) -> Seq<ReportItemView> {
    items.map_values(|item: ReportItem| item@)
}

/// One item of a report descriptor. The payload is borrowed from the
/// buffer that the item was framed in.
#[derive(Debug)]
pub struct ReportItem<'a> {
    typ: ReportItemType,
    tag: Tag,
    format: ReportItemFormat,
    data: &'a [u8],
}

impl<'a> View for ReportItem<'a> {
    type V = ReportItemView;

    closed spec fn view(&self) -> ReportItemView {
        ReportItemView { typ: self.typ, tag: self.tag, format: self.format, data: self.data@ }
    }
}

impl<'a> ReportItem<'a> {
    #[verifier::type_invariant]
    spec fn well_formed(self) -> bool {
        self@.wf()
    }

    /// Frames the item at the head of `data` and says how many bytes it
    /// occupies. Fails where `data` ends before the item does, and only
    /// there.
    pub fn parse(data: &'a [u8]) -> (result: Result<(ReportItem<'a>, usize), ParseError>)
        ensures
            result is Err <==> is_truncated(data@),
            result matches Ok((item, consumed)) ==> {
                &&& item@ == head_item(data@)
                &&& item@.wf()
                &&& declared_len(data@) == Some(consumed as nat)
                &&& consumed == item@.encoded_len()
                &&& 1 <= consumed <= data@.len()
                &&& item@.format == ReportItemFormat::Long <==> is_long(data@[0])
                &&& item@.format == ReportItemFormat::Short ==> item@.data.len() == size_bits(
                    data@[0],
                )
            },
            result matches Err(e) ==> e == ParseError::Truncated,
    {
        if data.len() == 0 {
            return Err(ParseError::Truncated);
        }
        // first byte defines size, type and tag/format
        let first_byte = data[0];
        let size = first_byte & 0x3;
        let raw_type = (first_byte >> 2) & 0x3;
        let raw_tag = (first_byte >> 4) & 0xf;
        assert(first_byte & 0x3 == first_byte % 4) by (bit_vector);
        assert((first_byte >> 2) & 0x3 == (first_byte / 4) % 4) by (bit_vector);
        assert((first_byte >> 4) & 0xf == first_byte / 16) by (bit_vector);

        let typ = ReportItemType::parse(raw_type);
        let tag = Tag::parse(raw_tag, typ);

        // Check if it is a long item
        if tag == Tag::LongItem {
            if data.len() < 3 {
                return Err(ParseError::Truncated);
            }
            let size = data[1] as usize;
            if data.len() - 3 < size {
                return Err(ParseError::Truncated);
            }
            let tag = Tag::resolve(data[2], typ);
            Ok(
                (
                    ReportItem {
                        typ,
                        tag,
                        format: ReportItemFormat::Long,
                        data: slice_subrange(data, 3, 3 + size),
                    },
                    size + 3,
                ),
            )
        } else {
            let size = size as usize;
            if data.len() - 1 < size {
                return Err(ParseError::Truncated);
            }
            Ok(
                (
                    ReportItem {
                        typ,
                        tag,
                        format: ReportItemFormat::Short,
                        data: slice_subrange(data, 1, 1 + size),
                    },
                    size + 1,
                ),
            )
        }
    }

    /// Cuts `data` into its items: frames one item after the other from
    /// the first byte on, until the buffer is used up. Fails where an item
    /// is cut short by the end of the buffer, and then hands out no item.
    pub fn parse_all(data: &'a [u8]) -> (result: Result<Vec<ReportItem<'a>>, ParseError>)
        ensures
            result is Ok <==> items_of(data@) is Some,
            result matches Ok(items) ==> {
                &&& items_of(data@) == Some(views_of(items@))
                &&& total_len(views_of(items@)) == data@.len()
                &&& forall|i: int| 0 <= i < items@.len() ==> (#[trigger] items@[i])@.wf()
            },
            result matches Err(e) ==> e == ParseError::Truncated,
    {
        let mut items: Vec<ReportItem<'a>> = Vec::new();
        let mut index: usize = 0;
        proof {
            assert(data@.skip(0) =~= data@);
            assert(views_of(items@) =~= Seq::empty());
        }
        while index < data.len()
            invariant
                index <= data@.len(),
                items_of(data@) == match items_of(data@.skip(index as int)) {
                    Some(rest) => Some(views_of(items@) + rest),
                    None => None,
                },
                total_len(views_of(items@)) == index,
                forall|i: int| 0 <= i < items@.len() ==> (#[trigger] items@[i])@.wf(),
            decreases data@.len() - index,
        {
            let ghost rest = data@.skip(index as int);
            let ghost before = views_of(items@);
            match ReportItem::parse(slice_subrange(data, index, data.len())) {
                Ok((item, consumed)) => {
                    proof {
                        assert(data@.subrange(index as int, data@.len() as int) =~= rest);
                        assert(rest.skip(consumed as int) =~= data@.skip(index + consumed));
                        lemma_total_len_push(before, item@);
                    }
                    items.push(item);
                    index += consumed;
                    proof {
                        assert(views_of(items@) =~= before.push(item@));
                        match items_of(data@.skip(index as int)) {
                            Some(tail) => {
                                assert(before + (seq![item@] + tail) =~= before.push(item@) + tail);
                            },
                            None => {},
                        }
                    }
                },
                Err(e) => {
                    proof {
                        assert(data@.subrange(index as int, data@.len() as int) =~= rest);
                    }
                    return Err(e);
                },
            }
        }
        proof {
            assert(data@.skip(index as int) =~= Seq::empty());
            assert(views_of(items@) + Seq::empty() =~= views_of(items@));
        }
        Ok(items)
    }

    /// The class of the item.
    pub fn item_type(&self) -> (typ: ReportItemType)
        ensures
            typ == self@.typ,
    {
        self.typ
    }

    /// The tag of the item, resolved in the namespace of its class.
    pub fn tag(&self) -> (tag: Tag)
        ensures
            tag == self@.tag,
            tag.spec_belongs_to(self@.typ),
            tag != Tag::LongItem,
    {
        proof {
            use_type_invariant(self);
        }
        self.tag
    }

    /// The framing rule that produced the item.
    pub fn format(&self) -> (format: ReportItemFormat)
        ensures
            format == self@.format,
    {
        self.format
    }

    /// The payload of the item.
    pub fn data(&self) -> (data: &'a [u8])
        ensures
            data@ == self@.data,
            self@.wf(),
    {
        proof {
            use_type_invariant(self);
        }
        self.data
    }

    /// The number of bytes the item occupies in the descriptor: its header
    /// and its payload.
    pub fn encoded_len(&self) -> (n: usize)
        ensures
            n == self@.encoded_len(),
            1 <= n <= 258,
    {
        proof {
            use_type_invariant(self);
        }
        self.format.header_len() + self.data.len()
    }
}

/// Adding an item at the end adds its length to the total.
pub proof fn lemma_total_len_push(items: Seq<ReportItemView>, item: ReportItemView)
    ensures
        total_len(items.push(item)) == total_len(items) + item.encoded_len(),
    decreases items.len(),
{
    let pushed = items.push(item);
    if items.len() == 0 {
        assert(pushed.drop_first() =~= Seq::empty());
        assert(total_len(pushed.drop_first()) == 0);
        assert(pushed[0] == item);
    } else {
        assert(pushed.drop_first() =~= items.drop_first().push(item));
        assert(pushed[0] == items[0]);
        lemma_total_len_push(items.drop_first(), item);
    }
}

/// An item that the buffer holds whole is well formed and occupies the
/// number of bytes that its header declares.
pub proof fn lemma_head_item(s: Seq<u8>)
    requires
        !is_truncated(s),
    ensures
        head_item(s).wf(),
        declared_len(s) == Some(head_item(s).encoded_len()),
        1 <= head_item(s).encoded_len() <= s.len(),
{
    let typ = ReportItemType::spec_parse(class_bits(s[0]));
    crate::tag::lemma_tag_table_total(tag_bits(s[0]), typ);
    crate::tag::lemma_tag_table_total(s[2], typ);
}

/// The payload of a short item is exactly as long as the size bits of its
/// prefix byte say, taken as they are, whatever the class bits and the tag
/// bits.
pub proof fn lemma_short_item_size(s: Seq<u8>)
    requires
        !is_truncated(s),
        !is_long(s[0]),
    ensures
        head_item(s).format == ReportItemFormat::Short,
        head_item(s).data.len() == size_bits(s[0]),
        head_item(s).data.len() <= 3,
        head_item(s).encoded_len() == size_bits(s[0]) + 1,
        head_item(s).data == s.subrange(1, 1 + size_bits(s[0])),
{
}

/// A prefix byte whose tag bits are all set announces a long item,
/// whatever its class bits and its size bits: the payload is as long as the
/// length byte says, and the tag is never the long item mark itself.
pub proof fn lemma_long_item_precedence(s: Seq<u8>)
    requires
        !is_truncated(s),
        tag_bits(s[0]) == LONG_ITEM_TAG,
    ensures
        head_item(s).format == ReportItemFormat::Long,
        head_item(s).typ == ReportItemType::spec_parse(class_bits(s[0])),
        head_item(s).tag == Tag::spec_resolve(s[2], head_item(s).typ),
        head_item(s).tag != Tag::LongItem,
        head_item(s).data.len() == s[1],
        head_item(s).encoded_len() == s[1] + 3,
        head_item(s).data == s.subrange(3, 3 + s[1]),
{
}

/// A buffer that ends before the item at its head does is truncated: no
/// proper prefix of a whole item frames.
pub proof fn lemma_prefix_is_truncated(s: Seq<u8>, k: int)
    requires
        !is_truncated(s),
        0 <= k < declared_len(s).unwrap(),
    ensures
        is_truncated(s.take(k)),
{
}

/// Bytes after an item do not change how it frames.
pub proof fn lemma_head_item_ignores_rest(s: Seq<u8>, rest: Seq<u8>)
    requires
        !is_truncated(s),
    ensures
        !is_truncated(s + rest),
        declared_len(s + rest) == declared_len(s),
        head_item(s + rest) == head_item(s),
{
    let n = declared_len(s).unwrap() as int;
    assert((s + rest)[0] == s[0]);
    if is_long(s[0]) {
        assert((s + rest)[1] == s[1]);
        assert((s + rest)[2] == s[2]);
        assert((s + rest).subrange(3, 3 + s[1]) =~= s.subrange(3, 3 + s[1]));
    } else {
        assert((s + rest).subrange(1, 1 + size_bits(s[0])) =~= s.subrange(1, 1 + size_bits(s[0])));
    }
}

/// The items of a buffer cover it: their lengths add up to the length of
/// the buffer, and each of them is well formed.
pub proof fn lemma_items_cover_buffer(s: Seq<u8>)
    requires
        items_of(s) is Some,
    ensures
        total_len(items_of(s).unwrap()) == s.len(),
        forall|i: int|
            0 <= i < items_of(s).unwrap().len() ==> (#[trigger] items_of(s).unwrap()[i]).wf(),
    decreases s.len(),
{
    if s.len() > 0 {
        let n = declared_len(s).unwrap() as int;
        let rest = items_of(s.skip(n)).unwrap();
        lemma_head_item(s);
        lemma_items_cover_buffer(s.skip(n));
        assert(items_of(s).unwrap() =~= seq![head_item(s)] + rest);
        assert((seq![head_item(s)] + rest).drop_first() =~= rest);
    }
}

} // verus!
