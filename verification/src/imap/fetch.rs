//! FETCH responses read into plain values, and folded into envelopes.
use vstd::prelude::*;

use io_imap::types::envelope::Address as ImapAddress;
use io_imap::types::fetch::MessageDataItem;
use io_imap::types::flag::FlagFetch;
use rfc2047_decoder::{Decoder, RecoverStrategy};

use crate::address::{Address, AddressView};
use crate::date::{header_date, parse_rfc2822_date};
use crate::envelope::{message_id_of, normalize_message_id, Envelope, EnvelopeView};
use crate::flag::types::{kept, Flag, FlagSet};
use crate::imap::wire::{
    address_content, body_part, envelope_content, fetch_flag, flag_content, item_content, raw_item,
    structure_content, wire_address, wire_envelope, BodyPart, BodyPartView, FetchFlag, FetchFlagView,
    RawItem, RawItemView, RawRow, RawRowView, WireAddress, WireAddressView,
};
use crate::text::{bytes_text, bytes_to_string, decimal, decimal_of, optional_bytes};

verus! {

/// An ENVELOPE with its addresses.
pub struct FetchEnvelope {
    pub date: Option<Vec<u8>>,
    pub subject: Option<Vec<u8>>,
    pub message_id: Option<Vec<u8>>,
    pub from: Vec<WireAddress>,
    pub to: Vec<WireAddress>,
}

/// What a [`FetchEnvelope`] says.
pub struct FetchEnvelopeView {
    pub date: Option<Seq<u8>>,
    pub subject: Option<Seq<u8>>,
    pub message_id: Option<Seq<u8>>,
    pub from: Seq<WireAddressView>,
    pub to: Seq<WireAddressView>,
}

impl DeepView for FetchEnvelope {
    type V = FetchEnvelopeView;

    open spec fn deep_view(&self) -> FetchEnvelopeView {
        FetchEnvelopeView {
            date: optional_bytes(self.date),
            subject: optional_bytes(self.subject),
            message_id: optional_bytes(self.message_id),
            from: self.from.deep_view(),
            to: self.to.deep_view(),
        }
    }
}

/// One item of a FETCH response.
pub enum FetchItem {
    Uid(u32),
    Flags(Vec<FetchFlag>),
    Envelope(FetchEnvelope),
    Rfc822Size(u32),
    BodyStructure(BodyPart),
    /// The body section that was asked for, `None` for NIL.
    Body(Option<Vec<u8>>),
    Other,
}

/// What a [`FetchItem`] says.
pub enum FetchItemView {
    Uid(u32),
    Flags(Seq<FetchFlagView>),
    Envelope(FetchEnvelopeView),
    Rfc822Size(u32),
    BodyStructure(BodyPartView),
    Body(Option<Seq<u8>>),
    Other,
}

impl DeepView for FetchItem {
    type V = FetchItemView;

    open spec fn deep_view(&self) -> FetchItemView {
        match self {
            FetchItem::Uid(uid) => FetchItemView::Uid(*uid),
            FetchItem::Flags(flags) => FetchItemView::Flags(flags.deep_view()),
            FetchItem::Envelope(envelope) => FetchItemView::Envelope(envelope.deep_view()),
            FetchItem::Rfc822Size(size) => FetchItemView::Rfc822Size(*size),
            FetchItem::BodyStructure(part) => FetchItemView::BodyStructure(part.content()),
            FetchItem::Body(data) => FetchItemView::Body(optional_bytes(*data)),
            FetchItem::Other => FetchItemView::Other,
        }
    }
}

/// The FETCH response for one message.
pub struct FetchRow {
    pub seq: u32,
    pub items: Vec<FetchItem>,
}

/// What a [`FetchRow`] says.
pub struct FetchRowView {
    pub seq: u32,
    pub items: Seq<FetchItemView>,
}

impl DeepView for FetchRow {
    type V = FetchRowView;

    open spec fn deep_view(&self) -> FetchRowView {
        FetchRowView { seq: self.seq, items: self.items.deep_view() }
    }
}

/// What an opaque FETCH item says.
pub open spec fn item_view(item: MessageDataItem<'static>) -> FetchItemView {
    match item_content(item) {
        RawItemView::Uid(uid) => FetchItemView::Uid(uid),
        RawItemView::Flags(flags) => FetchItemView::Flags(
            flags.map_values(|flag: FlagFetch<'static>| flag_content(flag)),
        ),
        RawItemView::Envelope(envelope) => {
            let e = envelope_content(envelope);
            FetchItemView::Envelope(
                FetchEnvelopeView {
                    date: e.date,
                    subject: e.subject,
                    message_id: e.message_id,
                    from: address_views(e.from),
                    to: address_views(e.to),
                },
            )
        },
        RawItemView::Rfc822Size(size) => FetchItemView::Rfc822Size(size),
        RawItemView::BodyStructure(structure) => FetchItemView::BodyStructure(
            structure_content(structure),
        ),
        RawItemView::Body(data) => FetchItemView::Body(data),
        RawItemView::Other => FetchItemView::Other,
    }
}

/// What opaque addresses say.
pub open spec fn address_views(list: Seq<ImapAddress<'static>>) -> Seq<WireAddressView> {
    list.map_values(|address: ImapAddress<'static>| address_content(address))
}

/// What opaque FETCH items say.
pub open spec fn item_views(items: Seq<MessageDataItem<'static>>) -> Seq<FetchItemView> {
    items.map_values(|item: MessageDataItem<'static>| item_view(item))
}

/// What an opaque FETCH response says.
pub open spec fn row_view(row: RawRowView) -> FetchRowView {
    FetchRowView { seq: row.seq, items: item_views(row.items) }
}

/// What opaque FETCH responses say.
pub open spec fn row_views(rows: Seq<RawRowView>) -> Seq<FetchRowView> {
    rows.map_values(|row: RawRowView| row_view(row))
}

fn read_addresses(list: &Vec<ImapAddress<'static>>) -> (r: Vec<WireAddress>)
    ensures
        r.deep_view() == address_views(list@),
{
    let mut out: Vec<WireAddress> = Vec::new();
    let mut i: usize = 0;
    while i < list.len()
        invariant
            i <= list@.len(),
            out@.len() == i,
            forall|j: int| 0 <= j < i ==> (#[trigger] out@[j]).deep_view() == address_content(list@[j]),
        decreases list@.len() - i,
    {
        out.push(wire_address(&list[i]));
        i = i + 1;
    }
    proof {
        assert(out.deep_view() =~= address_views(list@));
    }
    out
}

fn read_flags(flags: &Vec<FlagFetch<'static>>) -> (r: Vec<FetchFlag>)
    ensures
        r.deep_view() == flags@.map_values(|flag: FlagFetch<'static>| flag_content(flag)),
{
    let mut out: Vec<FetchFlag> = Vec::new();
    let mut i: usize = 0;
    while i < flags.len()
        invariant
            i <= flags@.len(),
            out@.len() == i,
            forall|j: int| 0 <= j < i ==> (#[trigger] out@[j]).deep_view() == flag_content(flags@[j]),
        decreases flags@.len() - i,
    {
        out.push(fetch_flag(&flags[i]));
        i = i + 1;
    }
    proof {
        assert(out.deep_view() =~= flags@.map_values(|flag: FlagFetch<'static>| flag_content(flag)));
    }
    out
}

/// Reads one FETCH item.
pub fn read_item(item: &MessageDataItem<'static>) -> (r: FetchItem)
    ensures
        r.deep_view() == item_view(*item),
{
    match raw_item(item) {
        RawItem::Uid(uid) => FetchItem::Uid(uid),
        RawItem::Flags(flags) => FetchItem::Flags(read_flags(&flags)),
        RawItem::Envelope(envelope) => {
            let e = wire_envelope(envelope);
            FetchItem::Envelope(
                FetchEnvelope {
                    date: e.date,
                    subject: e.subject,
                    message_id: e.message_id,
                    from: read_addresses(&e.from),
                    to: read_addresses(&e.to),
                },
            )
        },
        RawItem::Rfc822Size(size) => FetchItem::Rfc822Size(size),
        RawItem::BodyStructure(structure) => FetchItem::BodyStructure(body_part(&structure)),
        RawItem::Body(data) => FetchItem::Body(data),
        RawItem::Other => FetchItem::Other,
    }
}

/// Reads the FETCH items of one message.
pub fn read_items(items: &Vec<MessageDataItem<'static>>) -> (r: Vec<FetchItem>)
    ensures
        r.deep_view() == item_views(items@),
{
    let mut out: Vec<FetchItem> = Vec::new();
    let mut i: usize = 0;
    while i < items.len()
        invariant
            i <= items@.len(),
            out@.len() == i,
            forall|j: int| 0 <= j < i ==> (#[trigger] out@[j]).deep_view() == item_view(items@[j]),
        decreases items@.len() - i,
    {
        out.push(read_item(&items[i]));
        i = i + 1;
    }
    proof {
        assert(out.deep_view() =~= item_views(items@));
    }
    out
}

/// Reads FETCH responses.
pub fn read_rows(rows: &Vec<RawRow>) -> (r: Vec<FetchRow>)
    ensures
        r.deep_view() == row_views(rows.deep_view()),
{
    let mut out: Vec<FetchRow> = Vec::new();
    let mut i: usize = 0;
    while i < rows.len()
        invariant
            i <= rows@.len(),
            out@.len() == i,
            forall|j: int|
                0 <= j < i ==> (#[trigger] out@[j]).deep_view() == row_view(rows@[j].deep_view()),
        decreases rows@.len() - i,
    {
        out.push(FetchRow { seq: rows[i].seq, items: read_items(&rows[i].items) });
        i = i + 1;
    }
    proof {
        assert(out.deep_view() =~= row_views(rows.deep_view()));
    }
    out
}

/// What [`Decoder::decode`] makes of RFC 2047 encoded words when encoded
/// words that are too long are decoded anyway; `None` where it reports an
/// error.
pub uninterp spec fn rfc2047(bytes: Seq<u8>) -> Option<Seq<char>>;

/// [`Decoder::decode`] with [`RecoverStrategy::Decode`] for encoded words
/// that are too long.
#[verifier::external_body]
fn decode_rfc2047(bytes: &[u8]) -> (r: Option<String>)
    ensures
        r.deep_view() == rfc2047(bytes@),
{
    let decoder = Decoder::new().too_long_encoded_word_strategy(RecoverStrategy::Decode);
    decoder.decode(bytes).ok()
}

/// The text of a header value: its encoded words decoded, or the raw bytes
/// as text where they cannot be.
pub open spec fn header_text(bytes: Seq<u8>) -> Seq<char> {
    match rfc2047(bytes) {
        Some(text) => text,
        None => bytes_text(bytes),
    }
}

/// The text that a header value has when its encoded words come to
/// `decoded`.
pub fn decoded_or_raw(decoded: Option<String>, bytes: &[u8]) -> (r: String)
    ensures
        r@ == (match decoded {
            Some(text) => text@,
            None => bytes_text(bytes@),
        }),
{
    match decoded {
        Some(text) => text,
        None => bytes_to_string(bytes),
    }
}

/// Decodes RFC 2047 encoded words (e.g. `=?utf-8?B?...?=`), falling back to
/// [`bytes_to_string`].
pub fn decode_mime_bytes(bytes: &[u8]) -> (r: String)
    ensures
        r@ == header_text(bytes@),
{
    let decoded = decode_rfc2047(bytes);
    decoded_or_raw(decoded, bytes)
}

/// The text of optional bytes, empty for NIL.
pub open spec fn optional_text(bytes: Option<Seq<u8>>) -> Seq<char> {
    match bytes {
        Some(bytes) => bytes_text(bytes),
        None => seq![],
    }
}

/// An address: the display name decoded, where it is not empty, and
/// mailbox and host joined by `@`, where neither is empty.
pub open spec fn address_of(address: WireAddressView) -> AddressView {
    let mailbox = optional_text(address.mailbox);
    let host = optional_text(address.host);
    AddressView {
        name: match address.name {
            Some(bytes) => if header_text(bytes).len() == 0 {
                None
            } else {
                Some(header_text(bytes))
            },
            None => None,
        },
        email: if mailbox.len() == 0 {
            host
        } else if host.len() == 0 {
            mailbox
        } else {
            mailbox + seq!['@'] + host
        },
    }
}

fn optional_string(bytes: &Option<Vec<u8>>) -> (r: String)
    ensures
        r@ == optional_text(optional_bytes(*bytes)),
{
    match bytes {
        Some(bytes) => bytes_to_string(bytes),
        None => String::new(),
    }
}

/// Reads one address of an ENVELOPE.
pub fn address_from(address: &WireAddress) -> (r: Address)
    ensures
        r.deep_view() == address_of(address.deep_view()),
{
    let name = match &address.name {
        Some(bytes) => {
            let text = decode_mime_bytes(bytes);
            if text.as_str().is_empty() {
                None
            } else {
                Some(text)
            }
        },
        None => None,
    };
    let mailbox = optional_string(&address.mailbox);
    let host = optional_string(&address.host);
    let email = if mailbox.as_str().is_empty() {
        host
    } else if host.as_str().is_empty() {
        mailbox
    } else {
        let mut email = mailbox;
        email.push('@');
        email.append(&host);
        proof {
            assert(email@ =~= mailbox@ + seq!['@'] + host@);
        }
        email
    };
    Address { name, email }
}

/// Addresses of an ENVELOPE.
pub open spec fn addresses_of(list: Seq<WireAddressView>) -> Seq<AddressView> {
    list.map_values(|address: WireAddressView| address_of(address))
}

fn addresses_from(list: &Vec<WireAddress>) -> (r: Vec<Address>)
    ensures
        r.deep_view() == addresses_of(list.deep_view()),
{
    let mut out: Vec<Address> = Vec::new();
    let mut i: usize = 0;
    while i < list.len()
        invariant
            i <= list@.len(),
            out@.len() == i,
            forall|j: int|
                0 <= j < i ==> (#[trigger] out@[j]).deep_view() == address_of(list@[j].deep_view()),
        decreases list@.len() - i,
    {
        out.push(address_from(&list[i]));
        i = i + 1;
    }
    proof {
        assert(out.deep_view() =~= addresses_of(list.deep_view()));
    }
    out
}

/// The flags of a FETCH response: `\Recent` is no flag.
pub open spec fn flags_of(flags: Seq<FetchFlagView>) -> Set<Seq<char>>
    decreases flags.len(),
{
    if flags.len() == 0 {
        Set::empty()
    } else {
        match flags.last() {
            FetchFlagView::Flag(raw) => flags_of(flags.drop_last()).insert(kept(raw)),
            FetchFlagView::Recent => flags_of(flags.drop_last()),
        }
    }
}

/// Collects the flags of a FETCH response.
pub fn flags_from(flags: &Vec<FetchFlag>) -> (r: FlagSet)
    ensures
        r@ == flags_of(flags.deep_view()),
{
    let mut out = FlagSet::new();
    let mut i: usize = 0;
    while i < flags.len()
        invariant
            i <= flags@.len(),
            out@ == flags_of(flags.deep_view().subrange(0, i as int)),
        decreases flags@.len() - i,
    {
        proof {
            let all = flags.deep_view();
            assert(all.subrange(0, i + 1).drop_last() =~= all.subrange(0, i as int));
            assert(all.subrange(0, i + 1).last() == flags@[i as int].deep_view());
        }
        match &flags[i] {
            FetchFlag::Flag(raw) => {
                out.insert(Flag::from_raw(raw));
            },
            FetchFlag::Recent => {},
        }
        i = i + 1;
    }
    proof {
        assert(flags.deep_view().subrange(0, flags@.len() as int) =~= flags.deep_view());
    }
    out
}

/// The word `attachment`.
pub open spec fn attachment_word() -> Seq<u8> {
    seq![97u8, 116u8, 116u8, 97u8, 99u8, 104u8, 109u8, 101u8, 110u8, 116u8]
}

/// ASCII lower case of one byte.
pub open spec fn lower_byte(b: u8) -> u8 {
    if 65 <= b <= 90 {
        (b + 32) as u8
    } else {
        b
    }
}

/// Whether a disposition type is `attachment`, in any ASCII case.
pub open spec fn is_attachment(kind: Seq<u8>) -> bool {
    kind.map_values(|b: u8| lower_byte(b)) == attachment_word()
}

/// Whether a part of the structure is an attachment.
pub open spec fn has_attachment(part: BodyPartView) -> bool
    decreases part,
{
    match part {
        BodyPartView::Single { disposition } => match disposition {
            Some(kind) => is_attachment(kind),
            None => false,
        },
        BodyPartView::Multi { parts } => exists|i: int|
            0 <= i < parts.len() && has_attachment(#[trigger] parts[i]),
    }
}

fn same_as_attachment(kind: &Vec<u8>) -> (r: bool)
    ensures
        r == is_attachment(kind@),
{
    let word: [u8; 10] = [97, 116, 116, 97, 99, 104, 109, 101, 110, 116];
    if kind.len() != 10 {
        proof {
            assert(kind@.map_values(|b: u8| lower_byte(b)).len() == kind@.len());
            assert(attachment_word().len() == 10);
        }
        return false;
    }
    let mut i: usize = 0;
    while i < 10
        invariant
            i <= 10,
            kind@.len() == 10,
            word@ == attachment_word(),
            forall|j: int| 0 <= j < i ==> lower_byte(kind@[j]) == attachment_word()[j],
        decreases 10 - i,
    {
        let b: u8 = if 65 <= kind[i] && kind[i] <= 90 {
            kind[i] + 32
        } else {
            kind[i]
        };
        if b != word[i] {
            proof {
                assert(kind@.map_values(|b: u8| lower_byte(b))[i as int] != attachment_word()[i as int]);
            }
            return false;
        }
        i = i + 1;
    }
    proof {
        assert(kind@.map_values(|b: u8| lower_byte(b)) =~= attachment_word());
    }
    true
}

/// Whether a part of the structure is an attachment.
pub fn body_structure_has_attachment(part: &BodyPart) -> (r: bool)
    ensures
        r == has_attachment(part.content()),
    decreases part,
{
    match part {
        BodyPart::Single { disposition } => match disposition {
            Some(kind) => same_as_attachment(kind),
            None => false,
        },
        BodyPart::Multi { parts } => {
            let ghost views = part.content()->parts;
            let mut i: usize = 0;
            while i < parts.len()
                invariant
                    i <= parts@.len(),
                    *part == (BodyPart::Multi { parts: *parts }),
                    views == part.content()->parts,
                    forall|j: int| 0 <= j < i ==> !has_attachment(#[trigger] views[j]),
                decreases parts@.len() - i,
            {
                proof {
                    assert(views[i as int] == parts@[i as int].content());
                }
                if body_structure_has_attachment(&parts[i]) {
                    return true;
                }
                i = i + 1;
            }
            false
        },
    }
}

/// An envelope with nothing in it.
pub open spec fn blank() -> EnvelopeView {
    EnvelopeView {
        id: seq![],
        message_id: None,
        flags: Set::empty(),
        subject: seq![],
        from: seq![],
        to: seq![],
        date: None,
        size: 0,
        has_attachment: None,
    }
}

/// An envelope after one more item: each item sets what it speaks of, and
/// an ENVELOPE leaves the fields that are NIL in it.
pub open spec fn with_item(env: EnvelopeView, item: FetchItemView) -> EnvelopeView {
    match item {
        FetchItemView::Uid(uid) => EnvelopeView { id: decimal(uid as nat), ..env },
        FetchItemView::Flags(flags) => EnvelopeView { flags: flags_of(flags), ..env },
        FetchItemView::Envelope(e) => EnvelopeView {
            subject: match e.subject {
                Some(bytes) => header_text(bytes),
                None => env.subject,
            },
            date: match e.date {
                Some(bytes) => header_date(bytes_text(bytes)),
                None => env.date,
            },
            message_id: match e.message_id {
                Some(bytes) => message_id_of(bytes_text(bytes)),
                None => env.message_id,
            },
            from: addresses_of(e.from),
            to: addresses_of(e.to),
            ..env
        },
        FetchItemView::Rfc822Size(size) => EnvelopeView { size: size as nat, ..env },
        FetchItemView::BodyStructure(part) => EnvelopeView {
            has_attachment: Some(has_attachment(part)),
            ..env
        },
        FetchItemView::Body(_) => env,
        FetchItemView::Other => env,
    }
}

/// An envelope after some items, in order.
pub open spec fn with_items(items: Seq<FetchItemView>) -> EnvelopeView
    decreases items.len(),
{
    if items.len() == 0 {
        blank()
    } else {
        with_item(with_items(items.drop_last()), items.last())
    }
}

/// The envelope of a FETCH response; without a UID its id is the sequence
/// number.
pub open spec fn envelope_of(seq: u32, items: Seq<FetchItemView>) -> EnvelopeView {
    let env = with_items(items);
    if env.id.len() == 0 {
        EnvelopeView { id: decimal(seq as nat), ..env }
    } else {
        env
    }
}

/// Folds one FETCH response into the shared [`Envelope`] shape.
pub fn envelope_from(seq: u32, items: &Vec<FetchItem>) -> (r: Envelope)
    ensures
        r.deep_view() == envelope_of(seq, items.deep_view()),
{
    let mut env = Envelope {
        id: String::new(),
        message_id: None,
        flags: FlagSet::new(),
        subject: String::new(),
        from: Vec::new(),
        to: Vec::new(),
        date: None,
        size: 0,
        has_attachment: None,
    };
    proof {
        assert(env.from.deep_view() =~= seq![]);
        assert(env.to.deep_view() =~= seq![]);
        assert(env.deep_view() == blank());
        assert(items.deep_view().subrange(0, 0) =~= seq![]);
    }
    let mut i: usize = 0;
    while i < items.len()
        invariant
            i <= items@.len(),
            env.deep_view() == with_items(items.deep_view().subrange(0, i as int)),
        decreases items@.len() - i,
    {
        proof {
            let all = items.deep_view();
            assert(all.subrange(0, i + 1).drop_last() =~= all.subrange(0, i as int));
            assert(all.subrange(0, i + 1).last() == items@[i as int].deep_view());
        }
        match &items[i] {
            FetchItem::Uid(uid) => {
                env.id = decimal_of(*uid as u64);
            },
            FetchItem::Flags(flags) => {
                env.flags = flags_from(flags);
            },
            FetchItem::Envelope(e) => {
                if let Some(bytes) = &e.subject {
                    env.subject = decode_mime_bytes(bytes);
                }
                if let Some(bytes) = &e.date {
                    let raw = bytes_to_string(bytes);
                    env.date = parse_rfc2822_date(&raw);
                }
                if let Some(bytes) = &e.message_id {
                    let raw = bytes_to_string(bytes);
                    env.message_id = normalize_message_id(&raw);
                }
                env.from = addresses_from(&e.from);
                env.to = addresses_from(&e.to);
            },
            FetchItem::Rfc822Size(size) => {
                env.size = *size as u64;
            },
            FetchItem::BodyStructure(part) => {
                env.has_attachment = Some(body_structure_has_attachment(part));
            },
            FetchItem::Body(_) => {},
            FetchItem::Other => {},
        }
        i = i + 1;
    }
    proof {
        assert(items.deep_view().subrange(0, items@.len() as int) =~= items.deep_view());
    }
    if env.id.as_str().is_empty() {
        env.id = decimal_of(seq as u64);
    }
    env
}

/// A flag is in the set of a FETCH response exactly when the response gives
/// it somewhere, under a spelling that is kept as it; `\Recent` gives none.
pub proof fn law_flags_are_those_given(flags: Seq<FetchFlagView>, flag: Seq<char>)
    ensures
        flags_of(flags).contains(flag) <==> exists|i: int|
            0 <= i < flags.len() && (#[trigger] flags[i] matches FetchFlagView::Flag(raw) && kept(raw)
                == flag),
    decreases flags.len(),
{
    if flags.len() > 0 {
        let most = flags.drop_last();
        law_flags_are_those_given(most, flag);
        assert(flags[flags.len() - 1] == flags.last());
        if flags_of(flags).contains(flag) {
            if flags_of(most).contains(flag) {
                let i = choose|i: int|
                    0 <= i < most.len() && (#[trigger] most[i] matches FetchFlagView::Flag(raw) && kept(
                        raw,
                    ) == flag);
                assert(flags[i] == most[i]);
            }
        }
        if exists|i: int|
            0 <= i < flags.len() && (#[trigger] flags[i] matches FetchFlagView::Flag(raw) && kept(raw)
                == flag) {
            let i = choose|i: int|
                0 <= i < flags.len() && (#[trigger] flags[i] matches FetchFlagView::Flag(raw) && kept(raw)
                    == flag);
            if i < most.len() {
                assert(most[i] == flags[i]);
            }
        }
    }
}

/// A FETCH response gives no flag twice and loses none: responses with the
/// same flags, in whatever order and with whatever repetitions, have the same
/// set.
pub proof fn law_flag_order_does_not_matter(a: Seq<FetchFlagView>, b: Seq<FetchFlagView>)
    requires
        forall|flag: FetchFlagView| a.contains(flag) <==> b.contains(flag),
    ensures
        flags_of(a) == flags_of(b),
{
    assert forall|t: Seq<char>| flags_of(a).contains(t) == flags_of(b).contains(t) by {
        law_flags_are_those_given(a, t);
        law_flags_are_those_given(b, t);
        if flags_of(a).contains(t) {
            let i = choose|i: int|
                0 <= i < a.len() && (#[trigger] a[i] matches FetchFlagView::Flag(raw) && kept(raw) == t);
            assert(a.contains(a[i]));
            let j = choose|j: int| 0 <= j < b.len() && b[j] == a[i];
            assert(b[j] matches FetchFlagView::Flag(raw) && kept(raw) == t);
        }
        if flags_of(b).contains(t) {
            let i = choose|i: int|
                0 <= i < b.len() && (#[trigger] b[i] matches FetchFlagView::Flag(raw) && kept(raw) == t);
            assert(b.contains(b[i]));
            let j = choose|j: int| 0 <= j < a.len() && a[j] == b[i];
            assert(a[j] matches FetchFlagView::Flag(raw) && kept(raw) == t);
        }
    }
    assert(flags_of(a) =~= flags_of(b));
}

/// Whether the item at `k` is the last one of its sort.
pub open spec fn speaks_last(items: Seq<FetchItemView>, k: int, sort: spec_fn(FetchItemView) -> bool) -> bool {
    &&& 0 <= k < items.len()
    &&& sort(items[k])
    &&& forall|j: int| k < j < items.len() ==> !sort(#[trigger] items[j])
}

/// Whether no item is of a sort.
pub open spec fn silent(items: Seq<FetchItemView>, sort: spec_fn(FetchItemView) -> bool) -> bool {
    forall|j: int| 0 <= j < items.len() ==> !sort(#[trigger] items[j])
}

pub open spec fn is_uid() -> spec_fn(FetchItemView) -> bool {
    |item: FetchItemView| item is Uid
}

pub open spec fn is_flags() -> spec_fn(FetchItemView) -> bool {
    |item: FetchItemView| item is Flags
}

pub open spec fn is_envelope() -> spec_fn(FetchItemView) -> bool {
    |item: FetchItemView| item is Envelope
}

pub open spec fn is_size() -> spec_fn(FetchItemView) -> bool {
    |item: FetchItemView| item is Rfc822Size
}

pub open spec fn is_structure() -> spec_fn(FetchItemView) -> bool {
    |item: FetchItemView| item is BodyStructure
}

proof fn lemma_speaks_earlier(items: Seq<FetchItemView>, k: int, sort: spec_fn(FetchItemView) -> bool)
    requires
        speaks_last(items, k, sort),
        k < items.len() - 1,
    ensures
        speaks_last(items.drop_last(), k, sort),
        !sort(items.last()),
{
    assert(items[items.len() - 1] == items.last());
    assert forall|j: int| k < j < items.len() - 1 implies !sort(#[trigger] items.drop_last()[j]) by {
        assert(items[j] == items.drop_last()[j]);
    }
}

proof fn lemma_silent_earlier(items: Seq<FetchItemView>, sort: spec_fn(FetchItemView) -> bool)
    requires
        silent(items, sort),
        items.len() > 0,
    ensures
        silent(items.drop_last(), sort),
        !sort(items.last()),
{
    assert(items[items.len() - 1] == items.last());
    assert forall|j: int| 0 <= j < items.len() - 1 implies !sort(#[trigger] items.drop_last()[j]) by {
        assert(items[j] == items.drop_last()[j]);
    }
}

proof fn lemma_id_kept(items: Seq<FetchItemView>, k: int)
    ensures
        speaks_last(items, k, is_uid()) ==> with_items(items).id == decimal(items[k]->Uid_0 as nat),
        silent(items, is_uid()) ==> with_items(items).id.len() == 0,
    decreases items.len(),
{
    if items.len() > 0 {
        let most = items.drop_last();
        lemma_id_kept(most, k);
        if speaks_last(items, k, is_uid()) && k < items.len() - 1 {
            lemma_speaks_earlier(items, k, is_uid());
            assert(most[k] == items[k]);
        }
        if silent(items, is_uid()) {
            lemma_silent_earlier(items, is_uid());
        }
    }
}

/// The id of an envelope is the UID that its response gives, whatever else
/// it gives, and the sequence number where it gives none.
pub proof fn law_id_is_the_uid(seq: u32, items: Seq<FetchItemView>, k: int)
    ensures
        speaks_last(items, k, is_uid()) ==> envelope_of(seq, items).id == decimal(
            items[k]->Uid_0 as nat,
        ),
        silent(items, is_uid()) ==> envelope_of(seq, items).id == decimal(seq as nat),
{
    lemma_id_kept(items, k);
    if speaks_last(items, k, is_uid()) {
        crate::text::lemma_decimal(items[k]->Uid_0 as nat);
    }
}

proof fn lemma_flags_kept(items: Seq<FetchItemView>, k: int)
    ensures
        speaks_last(items, k, is_flags()) ==> with_items(items).flags == flags_of(items[k]->Flags_0),
        silent(items, is_flags()) ==> with_items(items).flags == Set::<Seq<char>>::empty(),
    decreases items.len(),
{
    if items.len() > 0 {
        let most = items.drop_last();
        lemma_flags_kept(most, k);
        if speaks_last(items, k, is_flags()) && k < items.len() - 1 {
            lemma_speaks_earlier(items, k, is_flags());
            assert(most[k] == items[k]);
        }
        if silent(items, is_flags()) {
            lemma_silent_earlier(items, is_flags());
        }
    }
}

/// An envelope has just the flags that its response gives, whatever else it
/// gives, and none where it gives no flags.
pub proof fn law_flags_are_the_fetched_ones(seq: u32, items: Seq<FetchItemView>, k: int, flag: Seq<char>)
    ensures
        speaks_last(items, k, is_flags()) ==> (envelope_of(seq, items).flags.contains(flag) <==> exists|
            i: int,
        |
            0 <= i < items[k]->Flags_0.len() && (#[trigger] items[k]->Flags_0[i] matches FetchFlagView::Flag(
                raw,
            ) && kept(raw) == flag)),
        silent(items, is_flags()) ==> !envelope_of(seq, items).flags.contains(flag),
{
    lemma_flags_kept(items, k);
    if speaks_last(items, k, is_flags()) {
        law_flags_are_those_given(items[k]->Flags_0, flag);
    }
}

proof fn lemma_size_kept(items: Seq<FetchItemView>, k: int)
    ensures
        speaks_last(items, k, is_size()) ==> with_items(items).size == items[k]->Rfc822Size_0,
        silent(items, is_size()) ==> with_items(items).size == 0,
    decreases items.len(),
{
    if items.len() > 0 {
        let most = items.drop_last();
        lemma_size_kept(most, k);
        if speaks_last(items, k, is_size()) && k < items.len() - 1 {
            lemma_speaks_earlier(items, k, is_size());
            assert(most[k] == items[k]);
        }
        if silent(items, is_size()) {
            lemma_silent_earlier(items, is_size());
        }
    }
}

/// The size of an envelope is the one that its response gives, zero where
/// it gives none.
pub proof fn law_size_is_the_fetched_one(seq: u32, items: Seq<FetchItemView>, k: int)
    ensures
        speaks_last(items, k, is_size()) ==> envelope_of(seq, items).size == items[k]->Rfc822Size_0,
        silent(items, is_size()) ==> envelope_of(seq, items).size == 0,
{
    lemma_size_kept(items, k);
}

/// The part of a structure at the end of a way down, where each step names
/// the place among the parts of a multipart.
pub open spec fn part_at(part: BodyPartView, way: Seq<int>) -> Option<BodyPartView>
    decreases way.len(),
{
    if way.len() == 0 {
        Some(part)
    } else {
        match part {
            BodyPartView::Multi { parts } => if 0 <= way[0] < parts.len() {
                part_at(parts[way[0]], way.drop_first())
            } else {
                None
            },
            BodyPartView::Single { .. } => None,
        }
    }
}

/// Whether a part is a single one whose disposition spells `attachment`, in
/// upper or lower case.
pub open spec fn declared_attachment(part: BodyPartView) -> bool {
    part matches BodyPartView::Single { disposition: Some(kind) } && {
        &&& kind.len() == "attachment"@.len()
        &&& forall|i: int|
            0 <= i < kind.len() ==> (#[trigger] kind[i] == "attachment"@[i] as u8 || kind[i] + 32
                == "attachment"@[i] as u8)
    }
}

proof fn lemma_declared(kind: Seq<u8>)
    ensures
        is_attachment(kind) <==> declared_attachment(
            BodyPartView::Single { disposition: Some(kind) },
        ),
{
    reveal_strlit("attachment");
    let low = kind.map_values(|b: u8| lower_byte(b));
    let word = attachment_word();
    assert(word =~= Seq::new(10, |i: int| "attachment"@[i] as u8));
    if is_attachment(kind) {
        assert forall|i: int| 0 <= i < kind.len() implies (#[trigger] kind[i] == "attachment"@[i] as u8
            || kind[i] + 32 == "attachment"@[i] as u8) by {
            assert(low[i] == word[i]);
        }
    }
    if declared_attachment(BodyPartView::Single { disposition: Some(kind) }) {
        assert forall|i: int| 0 <= i < kind.len() implies low[i] == word[i] by {
            assert(kind[i] == "attachment"@[i] as u8 || kind[i] + 32 == "attachment"@[i] as u8);
            assert(97 <= word[i] <= 122);
        }
        assert(low =~= word);
    }
}

/// A structure has an attachment exactly when some way down it ends at a
/// part that is declared one, however deep.
pub proof fn law_attachment_at_any_depth(part: BodyPartView)
    ensures
        has_attachment(part) <==> exists|way: Seq<int>|
            (#[trigger] part_at(part, way)) matches Some(leaf) && declared_attachment(leaf),
    decreases part,
{
    match part {
        BodyPartView::Single { disposition } => {
            if let Some(kind) = disposition {
                lemma_declared(kind);
            }
            if has_attachment(part) {
                assert(part_at(part, seq![]) == Some(part));
            }
            assert forall|way: Seq<int>|
                (#[trigger] part_at(part, way)) matches Some(leaf) && declared_attachment(
                    leaf,
                ) implies has_attachment(part) by {
                assert(way.len() == 0);
            }
        },
        BodyPartView::Multi { parts } => {
            if has_attachment(part) {
                let i = choose|i: int| 0 <= i < parts.len() && has_attachment(#[trigger] parts[i]);
                law_attachment_at_any_depth(parts[i]);
                let rest = choose|way: Seq<int>|
                    (#[trigger] part_at(parts[i], way)) matches Some(leaf) && declared_attachment(leaf);
                let way = seq![i] + rest;
                assert(way.drop_first() =~= rest);
                assert(part_at(part, way) == part_at(parts[i], rest));
            }
            assert forall|way: Seq<int>|
                (#[trigger] part_at(part, way)) matches Some(leaf) && declared_attachment(
                    leaf,
                ) implies has_attachment(part) by {
                assert(way.len() > 0);
                law_attachment_at_any_depth(parts[way[0]]);
                let found = part_at(parts[way[0]], way.drop_first());
                assert(has_attachment(parts[way[0]]));
            }
        },
    }
}

proof fn lemma_structure_kept(items: Seq<FetchItemView>, k: int)
    ensures
        speaks_last(items, k, is_structure()) ==> with_items(items).has_attachment == Some(
            has_attachment(items[k]->BodyStructure_0),
        ),
        silent(items, is_structure()) ==> with_items(items).has_attachment is None,
    decreases items.len(),
{
    if items.len() > 0 {
        let most = items.drop_last();
        lemma_structure_kept(most, k);
        if speaks_last(items, k, is_structure()) && k < items.len() - 1 {
            lemma_speaks_earlier(items, k, is_structure());
            assert(most[k] == items[k]);
        }
        if silent(items, is_structure()) {
            lemma_silent_earlier(items, is_structure());
        }
    }
}

/// Whether a message has attachments is told exactly where its response
/// gives a structure, and then by that structure.
pub proof fn law_attachment_is_told_by_structure(seq: u32, items: Seq<FetchItemView>, k: int)
    ensures
        speaks_last(items, k, is_structure()) ==> envelope_of(seq, items).has_attachment == Some(
            exists|way: Seq<int>|
                (#[trigger] part_at(items[k]->BodyStructure_0, way)) matches Some(leaf)
                    && declared_attachment(leaf),
        ),
        silent(items, is_structure()) ==> envelope_of(seq, items).has_attachment is None,
{
    lemma_structure_kept(items, k);
    if speaks_last(items, k, is_structure()) {
        law_attachment_at_any_depth(items[k]->BodyStructure_0);
    }
}

proof fn lemma_envelope_kept(items: Seq<FetchItemView>, k: int)
    ensures
        speaks_last(items, k, is_envelope()) ==> {
            let e = items[k]->Envelope_0;
            let env = with_items(items);
            &&& e.subject matches Some(bytes) ==> env.subject == header_text(bytes)
            &&& e.date matches Some(bytes) ==> env.date == header_date(bytes_text(bytes))
            &&& e.message_id matches Some(bytes) ==> env.message_id == message_id_of(bytes_text(bytes))
            &&& env.from.len() == e.from.len()
            &&& env.to.len() == e.to.len()
            &&& forall|i: int| 0 <= i < e.from.len() ==> #[trigger] env.from[i] == address_of(e.from[i])
            &&& forall|i: int| 0 <= i < e.to.len() ==> #[trigger] env.to[i] == address_of(e.to[i])
        },
        silent(items, is_envelope()) ==> {
            let env = with_items(items);
            &&& env.subject.len() == 0 && env.date is None && env.message_id is None
            &&& env.from.len() == 0 && env.to.len() == 0
        },
    decreases items.len(),
{
    if items.len() > 0 {
        let most = items.drop_last();
        lemma_envelope_kept(most, k);
        if speaks_last(items, k, is_envelope()) && k < items.len() - 1 {
            lemma_speaks_earlier(items, k, is_envelope());
            assert(most[k] == items[k]);
        }
        if silent(items, is_envelope()) {
            lemma_silent_earlier(items, is_envelope());
        }
    }
}

/// Subject, date, message id, senders and recipients of an envelope are those
/// of the ENVELOPE that its response gives, each sender and each recipient in
/// its place; without an ENVELOPE there are none.
pub proof fn law_headers_are_the_fetched_ones(seq: u32, items: Seq<FetchItemView>, k: int)
    ensures
        speaks_last(items, k, is_envelope()) ==> {
            let e = items[k]->Envelope_0;
            let env = envelope_of(seq, items);
            &&& e.subject matches Some(bytes) ==> env.subject == header_text(bytes)
            &&& e.date matches Some(bytes) ==> env.date == header_date(bytes_text(bytes))
            &&& e.message_id matches Some(bytes) ==> env.message_id == message_id_of(bytes_text(bytes))
            &&& env.from.len() == e.from.len()
            &&& env.to.len() == e.to.len()
            &&& forall|i: int| 0 <= i < e.from.len() ==> #[trigger] env.from[i] == address_of(e.from[i])
            &&& forall|i: int| 0 <= i < e.to.len() ==> #[trigger] env.to[i] == address_of(e.to[i])
        },
        silent(items, is_envelope()) ==> {
            let env = envelope_of(seq, items);
            &&& env.subject.len() == 0 && env.date is None && env.message_id is None
            &&& env.from.len() == 0 && env.to.len() == 0
        },
{
    lemma_envelope_kept(items, k);
}

/// An address whose mailbox and host hold no `@` can be taken apart again at
/// it; one that lacks either is the other. A name is never empty.
pub proof fn law_address_comes_apart(address: WireAddressView)
    ensures
        ({
            let mailbox = optional_text(address.mailbox);
            let host = optional_text(address.host);
            let email = address_of(address).email;
            &&& mailbox.len() > 0 && host.len() > 0 && !mailbox.contains('@') && !host.contains('@')
                ==> crate::text::split(email, '@') == seq![mailbox, host]
            &&& mailbox.len() > 0 && host.len() > 0 ==> email.len() == mailbox.len() + 1 + host.len()
            &&& host.len() == 0 ==> email == mailbox
            &&& mailbox.len() == 0 ==> email == host
        }),
        address_of(address).name matches Some(name) ==> name.len() > 0 && address.name is Some && name
            == header_text(address.name->0),
        address_of(address).name is None ==> address.name is None || header_text(address.name->0).len()
            == 0,
{
    let mailbox = optional_text(address.mailbox);
    let host = optional_text(address.host);
    if mailbox.len() == 0 {
        assert(mailbox =~= seq![]);
    }
    if mailbox.len() == 0 && host.len() == 0 {
        assert(mailbox =~= host);
    }
    if !mailbox.contains('@') && !host.contains('@') {
        crate::text::lemma_split_first(mailbox, host, '@');
        crate::text::lemma_split_first(host, seq![], '@');
        assert(seq![mailbox] + seq![host] =~= seq![mailbox, host]);
    }
}

/// Reading a response exchanges nothing: the numbers stay, each flag and each
/// address stays in its place, and senders stay senders.
pub proof fn law_reading_exchanges_nothing(item: MessageDataItem<'static>)
    ensures
        match item_content(item) {
            RawItemView::Uid(uid) => item_view(item) == FetchItemView::Uid(uid),
            RawItemView::Flags(flags) => item_view(item) matches FetchItemView::Flags(read)
                && read.len() == flags.len() && forall|i: int|
                0 <= i < flags.len() ==> #[trigger] read[i] == flag_content(flags[i]),
            RawItemView::Envelope(envelope) => item_view(item) matches FetchItemView::Envelope(read) && {
                let given = envelope_content(envelope);
                &&& read.date == given.date
                &&& read.subject == given.subject
                &&& read.message_id == given.message_id
                &&& read.from.len() == given.from.len()
                &&& read.to.len() == given.to.len()
                &&& forall|i: int|
                    0 <= i < given.from.len() ==> #[trigger] read.from[i] == address_content(given.from[i])
                &&& forall|i: int|
                    0 <= i < given.to.len() ==> #[trigger] read.to[i] == address_content(given.to[i])
            },
            RawItemView::Rfc822Size(size) => item_view(item) == FetchItemView::Rfc822Size(size),
            RawItemView::BodyStructure(structure) => item_view(item) == FetchItemView::BodyStructure(
                structure_content(structure),
            ),
            RawItemView::Body(data) => item_view(item) == FetchItemView::Body(data),
            RawItemView::Other => item_view(item) is Other,
        },
{
}

/// Every response is read in its place, with its sequence number and all its
/// items in their order.
pub proof fn law_responses_are_read_whole(rows: Seq<RawRowView>, i: int)
    requires
        0 <= i < rows.len(),
    ensures
        row_views(rows).len() == rows.len(),
        row_views(rows)[i].seq == rows[i].seq,
        row_views(rows)[i].items.len() == rows[i].items.len(),
        forall|k: int|
            0 <= k < rows[i].items.len() ==> #[trigger] row_views(rows)[i].items[k] == item_view(
                rows[i].items[k],
            ),
{
}

} // verus!
