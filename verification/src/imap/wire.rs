//! The IMAP crates as the library sees them: the exchanges of `io_imap`,
//! each an opaque coroutine with the request it was built for, and the
//! FETCH data of `imap_types` as plain values.
use vstd::prelude::*;

use io_imap::codec::fragmentizer::Fragmentizer;
use io_imap::coroutine::{ImapCoroutine, ImapCoroutineState, ImapYield};
use io_imap::rfc3501::append::{
    ImapMessageAppend, ImapMessageAppendError, ImapMessageAppendOptions,
};
use io_imap::rfc3501::copy::{
    ImapMessageCopy as WireCopy, ImapMessageCopyError as WireCopyError, ImapMessageCopyOptions,
};
use io_imap::rfc3501::create::{
    ImapMailboxCreate as WireCreate, ImapMailboxCreateError as WireCreateError,
};
use io_imap::rfc3501::delete::{
    ImapMailboxDelete as WireDelete, ImapMailboxDeleteError as WireDeleteError,
};
use io_imap::rfc3501::examine::{
    ImapMailboxExamine, ImapMailboxExamineError, ImapMailboxExamineOptions,
};
use io_imap::rfc3501::expunge::{ImapMailboxExpunge, ImapMailboxExpungeError};
use io_imap::rfc3501::fetch::{
    ImapMessageFetch, ImapMessageFetchError, ImapMessageFetchOptions,
};
use io_imap::rfc3501::list::{
    ImapMailboxList as WireList, ImapMailboxListError as WireListError,
};
use io_imap::rfc3501::search::{
    ImapMessageSearch, ImapMessageSearchError, ImapMessageSearchOptions,
};
use io_imap::rfc3501::select::{
    ImapMailboxSelect, ImapMailboxSelectError, ImapMailboxSelectOptions,
};
use io_imap::rfc3501::status::{ImapMailboxStatus, ImapMailboxStatusError};
use io_imap::rfc3501::store::{ImapMessageStore, ImapMessageStoreError, ImapMessageStoreOptions};
use io_imap::rfc5256::sort::{ImapMessageSort, ImapMessageSortError, ImapMessageSortOptions};
use io_imap::types::body::BodyStructure;
use io_imap::types::envelope::{Address as ImapAddress, Envelope as ImapEnvelope};
use io_imap::types::extensions::sort::{SortCriterion as ImapSortCriterion, SortKey as ImapSortKey};
use io_imap::types::fetch::{MacroOrMessageDataItemNames, MessageDataItem, MessageDataItemName};
use io_imap::types::flag::{Flag as WireFlag, FlagFetch, FlagNameAttribute, StoreType};
use io_imap::types::mailbox::Mailbox as WireMailbox;
use io_imap::types::search::SearchKey as ImapSearchKey;
use io_imap::types::sequence::SequenceSet;
use io_imap::types::status::{StatusDataItem, StatusDataItemName};

use crate::coroutine::{fed, EmailCoroutineState, ImapStep, Outcome};
use crate::date::Date;
use crate::flag::types::FlagOp;
use crate::imap::convert::{
    atom, sequence_set_text, transmissible, ImapFlag, ImapFlagView, ImapMailbox, UidSet,
};
use crate::imap::search_key::{PlainKey, SearchKeyView, SortCriterion, TextField};
use crate::search::SearchEmailsSorterKind;
use crate::text::{number, optional_bytes, split};

verus! {

/// The connection-wide parser buffer of `io_imap`.
#[verifier::external_type_specification]
#[verifier::external_body]
pub struct ExFragmentizer(Fragmentizer);

/// One item of a FETCH response.
#[verifier::external_type_specification]
#[verifier::external_body]
pub struct ExMessageDataItem<'a>(MessageDataItem<'a>);

/// One flag of a FETCH response.
#[verifier::external_type_specification]
#[verifier::external_body]
pub struct ExFlagFetch<'a>(FlagFetch<'a>);

/// The ENVELOPE of a FETCH response.
#[verifier::external_type_specification]
#[verifier::external_body]
pub struct ExImapEnvelope<'a>(ImapEnvelope<'a>);

/// One address of an ENVELOPE.
#[verifier::external_type_specification]
#[verifier::external_body]
pub struct ExImapAddress<'a>(ImapAddress<'a>);

/// The BODYSTRUCTURE of a FETCH response.
#[verifier::external_type_specification]
#[verifier::external_body]
pub struct ExBodyStructure<'a>(BodyStructure<'a>);

/// A FETCH item with its parts still opaque.
pub enum RawItem {
    Uid(u32),
    Flags(Vec<FlagFetch<'static>>),
    Envelope(ImapEnvelope<'static>),
    Rfc822Size(u32),
    BodyStructure(BodyStructure<'static>),
    /// The body section that was asked for, `None` for NIL.
    Body(Option<Vec<u8>>),
    Other,
}

/// What a [`RawItem`] holds.
pub enum RawItemView {
    Uid(u32),
    Flags(Seq<FlagFetch<'static>>),
    Envelope(ImapEnvelope<'static>),
    Rfc822Size(u32),
    BodyStructure(BodyStructure<'static>),
    Body(Option<Seq<u8>>),
    Other,
}

impl DeepView for RawItem {
    type V = RawItemView;

    open spec fn deep_view(&self) -> RawItemView {
        match self {
            RawItem::Uid(uid) => RawItemView::Uid(*uid),
            RawItem::Flags(flags) => RawItemView::Flags(flags@),
            RawItem::Envelope(envelope) => RawItemView::Envelope(*envelope),
            RawItem::Rfc822Size(size) => RawItemView::Rfc822Size(*size),
            RawItem::BodyStructure(structure) => RawItemView::BodyStructure(*structure),
            RawItem::Body(data) => RawItemView::Body(optional_bytes(*data)),
            RawItem::Other => RawItemView::Other,
        }
    }
}

/// The content of a FETCH item, by its variant.
pub uninterp spec fn item_content(item: MessageDataItem<'static>) -> RawItemView;

/// Tells the variants of [`MessageDataItem`] apart. Of a `BODY[..]` item
/// it hands out the data, and of the variants that no envelope is read
/// from nothing.
#[verifier::external_body]
pub(crate) fn raw_item(item: &MessageDataItem<'static>) -> (r: RawItem)
    ensures
        r.deep_view() == item_content(*item),
{
    match item {
        MessageDataItem::Uid(uid) => RawItem::Uid(uid.get()),
        MessageDataItem::Flags(flags) => RawItem::Flags(flags.clone()),
        MessageDataItem::Envelope(envelope) => RawItem::Envelope(envelope.clone()),
        MessageDataItem::Rfc822Size(size) => RawItem::Rfc822Size(*size),
        MessageDataItem::BodyStructure(structure) => RawItem::BodyStructure(structure.clone()),
        MessageDataItem::BodyExt { data, .. } => {
            RawItem::Body(data.0.as_ref().map(|data| data.as_ref().to_vec()))
        },
        _ => RawItem::Other,
    }
}

/// One flag of a FETCH response.
pub enum FetchFlag {
    /// A flag in its wire spelling.
    Flag(String),
    /// `\Recent`, which a client cannot alter.
    Recent,
}

/// What a [`FetchFlag`] says.
pub enum FetchFlagView {
    Flag(Seq<char>),
    Recent,
}

impl DeepView for FetchFlag {
    type V = FetchFlagView;

    open spec fn deep_view(&self) -> FetchFlagView {
        match self {
            FetchFlag::Flag(text) => FetchFlagView::Flag(text@),
            FetchFlag::Recent => FetchFlagView::Recent,
        }
    }
}

/// The wire spelling of a fetched flag, by its variant.
pub uninterp spec fn flag_content(flag: FlagFetch<'static>) -> FetchFlagView;

/// Tells the variants of [`FlagFetch`] apart and spells a flag out.
#[verifier::external_body]
pub(crate) fn fetch_flag(flag: &FlagFetch<'static>) -> (r: FetchFlag)
    ensures
        r.deep_view() == flag_content(*flag),
{
    match flag {
        FlagFetch::Flag(flag) => FetchFlag::Flag(flag.to_string()),
        FlagFetch::Recent => FetchFlag::Recent,
    }
}

/// An address of an ENVELOPE: the bytes of its parts, `None` for NIL.
pub struct WireAddress {
    pub name: Option<Vec<u8>>,
    pub mailbox: Option<Vec<u8>>,
    pub host: Option<Vec<u8>>,
}

/// What a [`WireAddress`] says.
pub struct WireAddressView {
    pub name: Option<Seq<u8>>,
    pub mailbox: Option<Seq<u8>>,
    pub host: Option<Seq<u8>>,
}

impl DeepView for WireAddress {
    type V = WireAddressView;

    open spec fn deep_view(&self) -> WireAddressView {
        WireAddressView {
            name: optional_bytes(self.name),
            mailbox: optional_bytes(self.mailbox),
            host: optional_bytes(self.host),
        }
    }
}

/// The parts of an address.
pub uninterp spec fn address_content(address: ImapAddress<'static>) -> WireAddressView;

/// The bytes of the parts of an [`ImapAddress`].
#[verifier::external_body]
pub(crate) fn wire_address(address: &ImapAddress<'static>) -> (r: WireAddress)
    ensures
        r.deep_view() == address_content(*address),
{
    WireAddress {
        name: address.name.0.as_ref().map(|text| text.as_ref().to_vec()),
        mailbox: address.mailbox.0.as_ref().map(|text| text.as_ref().to_vec()),
        host: address.host.0.as_ref().map(|text| text.as_ref().to_vec()),
    }
}

/// An ENVELOPE: the bytes of the fields that are read, `None` for NIL.
pub struct WireEnvelope {
    pub date: Option<Vec<u8>>,
    pub subject: Option<Vec<u8>>,
    pub message_id: Option<Vec<u8>>,
    pub from: Vec<ImapAddress<'static>>,
    pub to: Vec<ImapAddress<'static>>,
}

/// What a [`WireEnvelope`] says.
pub struct WireEnvelopeView {
    pub date: Option<Seq<u8>>,
    pub subject: Option<Seq<u8>>,
    pub message_id: Option<Seq<u8>>,
    pub from: Seq<ImapAddress<'static>>,
    pub to: Seq<ImapAddress<'static>>,
}

impl DeepView for WireEnvelope {
    type V = WireEnvelopeView;

    open spec fn deep_view(&self) -> WireEnvelopeView {
        WireEnvelopeView {
            date: optional_bytes(self.date),
            subject: optional_bytes(self.subject),
            message_id: optional_bytes(self.message_id),
            from: self.from@,
            to: self.to@,
        }
    }
}

/// The fields of an ENVELOPE.
pub uninterp spec fn envelope_content(envelope: ImapEnvelope<'static>) -> WireEnvelopeView;

/// The bytes of the fields of an [`ImapEnvelope`].
#[verifier::external_body]
pub(crate) fn wire_envelope(envelope: ImapEnvelope<'static>) -> (r: WireEnvelope)
    ensures
        r.deep_view() == envelope_content(envelope),
{
    WireEnvelope {
        date: envelope.date.0.map(|text| text.as_ref().to_vec()),
        subject: envelope.subject.0.map(|text| text.as_ref().to_vec()),
        message_id: envelope.message_id.0.map(|text| text.as_ref().to_vec()),
        from: envelope.from,
        to: envelope.to,
    }
}

/// A BODYSTRUCTURE as far as attachments show in it.
pub enum BodyPart {
    /// A single part with its disposition type, if it gives one.
    Single { disposition: Option<Vec<u8>> },
    Multi { parts: Vec<BodyPart> },
}

/// What a [`BodyPart`] says.
pub enum BodyPartView {
    Single { disposition: Option<Seq<u8>> },
    Multi { parts: Seq<BodyPartView> },
}

impl BodyPart {
    pub open spec fn content(self) -> BodyPartView
        decreases self,
    {
        match self {
            BodyPart::Single { disposition } => BodyPartView::Single {
                disposition: optional_bytes(disposition),
            },
            BodyPart::Multi { parts } => BodyPartView::Multi {
                parts: Seq::new(
                    parts@.len(),
                    |i: int|
                        if 0 <= i < parts@.len() {
                            parts@[i].content()
                        } else {
                            arbitrary()
                        },
                ),
            },
        }
    }
}

/// The parts of a BODYSTRUCTURE.
pub uninterp spec fn structure_content(structure: BodyStructure<'static>) -> BodyPartView;

/// The tree of a [`BodyStructure`], each single part with the type in its
/// extension data's disposition.
#[verifier::external_body]
pub(crate) fn body_part(structure: &BodyStructure<'static>) -> (r: BodyPart)
    ensures
        r.content() == structure_content(*structure),
{
    match structure {
        BodyStructure::Single { extension_data, .. } => BodyPart::Single {
            disposition: extension_data.as_ref().and_then(|ext| ext.tail.as_ref()).and_then(
                |tail| tail.disposition.as_ref().map(|(kind, _)| kind.as_ref().to_vec()),
            ),
        },
        BodyStructure::Multi { bodies, .. } => {
            BodyPart::Multi { parts: bodies.as_ref().iter().map(body_part).collect() }
        },
    }
}

/// A set of message numbers or UIDs, parsed.
#[verifier::external_type_specification]
#[verifier::external_body]
pub struct ExSequenceSet(SequenceSet);

/// A bound of a sequence set.
pub enum SetBound {
    Number(u32),
    /// `*`: the last message.
    Last,
}

/// A number or a range of a sequence set.
pub enum SetItem {
    Single(SetBound),
    Range(SetBound, SetBound),
}

/// The numbers and ranges of a sequence set, in their order.
pub uninterp spec fn set_items(set: SequenceSet) -> Seq<SetItem>;

/// The bound that a text writes down.
pub open spec fn text_bound(text: Seq<char>) -> SetBound {
    match number(text) {
        Some(n) => SetBound::Number(n),
        None => SetBound::Last,
    }
}

/// The number or range that a text writes down.
pub open spec fn text_item(text: Seq<char>) -> SetItem {
    let ends = split(text, ':');
    if ends.len() == 1 {
        SetItem::Single(text_bound(ends[0]))
    } else {
        SetItem::Range(text_bound(ends[0]), text_bound(ends[1]))
    }
}

/// The numbers and ranges that a text writes down.
pub open spec fn text_items(text: Seq<char>) -> Seq<SetItem> {
    split(text, ',').map_values(|part: Seq<char>| text_item(part))
}

/// UIDs as a sequence set; the greatest number there is stands for the last
/// message.
pub open spec fn uid_items(uids: Seq<u32>) -> Seq<SetItem> {
    uids.map_values(
        |uid: u32|
            if uid == u32::MAX {
                SetItem::Single(SetBound::Last)
            } else {
                SetItem::Single(SetBound::Number(uid))
            },
    )
}

/// [`SequenceSet`]'s `TryFrom<&str>`: it takes exactly the texts of the
/// sequence-set grammar.
#[verifier::external_body]
pub(crate) fn sequence_set(text: &str) -> (r: Option<SequenceSet>)
    ensures
        r is Some <==> sequence_set_text(text@),
        r matches Some(set) ==> set_items(set) == text_items(text@),
{
    SequenceSet::try_from(text).ok()
}

/// A data item that a FETCH asks for.
#[derive(Clone, Copy, Debug, PartialEq, Eq, Structural)]
pub enum FetchItemName {
    Uid,
    Flags,
    Envelope,
    Rfc822Size,
    BodyStructure,
    /// `BODY.PEEK[]`: the whole message, without setting `\Seen`.
    BodyPeek,
}

/// The SELECT exchange of `io_imap`.
#[verifier::external_type_specification]
#[verifier::external_body]
pub struct ExImapMailboxSelect(ImapMailboxSelect);

/// Why a SELECT failed.
#[verifier::external_type_specification]
#[verifier::external_body]
pub struct ExImapMailboxSelectError(ImapMailboxSelectError);

/// The mailbox that a SELECT exchange opens, `None` once it is over.
pub uninterp spec fn select_request(select: ImapMailboxSelect) -> Option<Seq<char>>;

/// What the next step of a SELECT exchange comes to: the number of
/// messages in the mailbox, where the server gives it.
pub uninterp spec fn select_step(
    select: ImapMailboxSelect,
    fragmentizer: Fragmentizer,
    bytes: Option<Seq<u8>>,
) -> Outcome<Option<u32>, ImapMailboxSelectError>;

/// Where the next step of a SELECT exchange leaves it, and the parser with it.
pub uninterp spec fn select_left(
    select: ImapMailboxSelect,
    fragmentizer: Fragmentizer,
    bytes: Option<Seq<u8>>,
) -> (ImapMailboxSelect, Fragmentizer);

/// [`ImapMailboxSelect::new`] without parameters: an exchange that opens
/// `mailbox` read-write. The command carries a fresh tag, so no two are
/// the same.
#[verifier::external_body]
pub(crate) fn select_new(mailbox: &ImapMailbox) -> (r: ImapMailboxSelect)
    ensures
        select_request(r) == Some(mailbox@),
{
    let mailbox = WireMailbox::try_from(mailbox.as_str().to_owned()).unwrap();
    ImapMailboxSelect::new(mailbox, ImapMailboxSelectOptions::default())
}

/// One step of [`ImapMailboxSelect`]. A step depends on the exchange, on
/// what the parser holds and on the bytes read; an exchange that waits for
/// I/O is still the one for its mailbox. One that is over is not resumed.
#[verifier::external_body]
pub(crate) fn select_resume(
    select: &mut ImapMailboxSelect,
    fragmentizer: &mut Fragmentizer,
    bytes: Option<&[u8]>,
) -> (r: EmailCoroutineState<ImapStep, Result<Option<u32>, ImapMailboxSelectError>>)
    requires
        select_request(*old(select)) is Some,
    ensures
        r.outcome() == select_step(*old(select), *old(fragmentizer), fed(bytes)),
        (*final(select), *final(fragmentizer)) == select_left(
            *old(select),
            *old(fragmentizer),
            fed(bytes),
        ),
        r is Yielded ==> select_request(*final(select)) == select_request(*old(select)),
{
    match select.resume(fragmentizer, bytes) {
        ImapCoroutineState::Yielded(ImapYield::WantsRead) => {
            EmailCoroutineState::Yielded(ImapStep::WantsRead)
        },
        ImapCoroutineState::Yielded(ImapYield::WantsWrite(out)) => {
            EmailCoroutineState::Yielded(ImapStep::WantsWrite(out))
        },
        ImapCoroutineState::Complete(Ok(data)) => EmailCoroutineState::Complete(Ok(data.exists)),
        ImapCoroutineState::Complete(Err(err)) => EmailCoroutineState::Complete(Err(err)),
    }
}

/// The FETCH exchange of `io_imap`.
#[verifier::external_type_specification]
#[verifier::external_body]
pub struct ExImapMessageFetch(ImapMessageFetch);

/// Why a FETCH failed.
#[verifier::external_type_specification]
#[verifier::external_body]
pub struct ExImapMessageFetchError(ImapMessageFetchError);

/// What a FETCH exchange asks for.
pub struct FetchRequest {
    pub set: Seq<SetItem>,
    pub items: Seq<FetchItemName>,
    /// Whether the set holds UIDs.
    pub uid: bool,
}

/// The FETCH response for one message.
pub struct RawRow {
    pub seq: u32,
    pub items: Vec<MessageDataItem<'static>>,
}

/// What a [`RawRow`] holds.
pub struct RawRowView {
    pub seq: u32,
    pub items: Seq<MessageDataItem<'static>>,
}

impl DeepView for RawRow {
    type V = RawRowView;

    open spec fn deep_view(&self) -> RawRowView {
        RawRowView { seq: self.seq, items: self.items@ }
    }
}

/// What a FETCH exchange asks for, `None` once it is over.
pub uninterp spec fn fetch_request(fetch: ImapMessageFetch) -> Option<FetchRequest>;

/// What the next step of a FETCH exchange comes to: the responses in the
/// order of their sequence numbers.
pub uninterp spec fn fetch_step(
    fetch: ImapMessageFetch,
    fragmentizer: Fragmentizer,
    bytes: Option<Seq<u8>>,
) -> Outcome<Seq<RawRowView>, ImapMessageFetchError>;

/// Where the next step of a FETCH exchange leaves it, and the parser with it.
pub uninterp spec fn fetch_left(
    fetch: ImapMessageFetch,
    fragmentizer: Fragmentizer,
    bytes: Option<Seq<u8>>,
) -> (ImapMessageFetch, Fragmentizer);

/// [`ImapMessageFetch::new`] without modifiers: an exchange that fetches
/// `items` for every message in `set`.
#[verifier::external_body]
pub(crate) fn fetch_new(set: SequenceSet, items: &Vec<FetchItemName>, uid: bool) -> (r:
    ImapMessageFetch)
    ensures
        fetch_request(r) == Some(FetchRequest { set: set_items(set), items: items@, uid }),
{
    let names = items.iter().map(|name| match name {
        FetchItemName::Uid => MessageDataItemName::Uid,
        FetchItemName::Flags => MessageDataItemName::Flags,
        FetchItemName::Envelope => MessageDataItemName::Envelope,
        FetchItemName::Rfc822Size => MessageDataItemName::Rfc822Size,
        FetchItemName::BodyStructure => MessageDataItemName::BodyStructure,
        FetchItemName::BodyPeek => {
            MessageDataItemName::BodyExt { section: None, partial: None, peek: true }
        },
    }).collect();
    let names = MacroOrMessageDataItemNames::MessageDataItemNames(names);
    ImapMessageFetch::new(set, names, ImapMessageFetchOptions { uid, modifiers: Vec::new() })
}

/// One step of [`ImapMessageFetch`]; its map of responses is handed out in
/// the order of its keys.
#[verifier::external_body]
pub(crate) fn fetch_resume(
    fetch: &mut ImapMessageFetch,
    fragmentizer: &mut Fragmentizer,
    bytes: Option<&[u8]>,
) -> (r: EmailCoroutineState<ImapStep, Result<Vec<RawRow>, ImapMessageFetchError>>)
    requires
        fetch_request(*old(fetch)) is Some,
    ensures
        r.outcome() == fetch_step(*old(fetch), *old(fragmentizer), fed(bytes)),
        (*final(fetch), *final(fragmentizer)) == fetch_left(
            *old(fetch),
            *old(fragmentizer),
            fed(bytes),
        ),
        r is Yielded ==> fetch_request(*final(fetch)) == fetch_request(*old(fetch)),
{
    match fetch.resume(fragmentizer, bytes) {
        ImapCoroutineState::Yielded(ImapYield::WantsRead) => {
            EmailCoroutineState::Yielded(ImapStep::WantsRead)
        },
        ImapCoroutineState::Yielded(ImapYield::WantsWrite(out)) => {
            EmailCoroutineState::Yielded(ImapStep::WantsWrite(out))
        },
        ImapCoroutineState::Complete(Ok(rows)) => EmailCoroutineState::Complete(Ok(
            rows.into_iter().map(|(seq, items)| RawRow { seq: seq.get(), items: items.into_inner() }).collect(),
        )),
        ImapCoroutineState::Complete(Err(err)) => EmailCoroutineState::Complete(Err(err)),
    }
}

/// The EXAMINE exchange of `io_imap`.
#[verifier::external_type_specification]
#[verifier::external_body]
pub struct ExImapMailboxExamine(ImapMailboxExamine);

/// Why an EXAMINE failed.
#[verifier::external_type_specification]
#[verifier::external_body]
pub struct ExImapMailboxExamineError(ImapMailboxExamineError);

/// The mailbox that an EXAMINE exchange opens, `None` once it is over.
pub uninterp spec fn examine_request(examine: ImapMailboxExamine) -> Option<Seq<char>>;

/// What the next step of an EXAMINE exchange comes to: the number of
/// messages in the mailbox, where the server gives it.
pub uninterp spec fn examine_step(
    examine: ImapMailboxExamine,
    fragmentizer: Fragmentizer,
    bytes: Option<Seq<u8>>,
) -> Outcome<Option<u32>, ImapMailboxExamineError>;

/// Where the next step of an EXAMINE exchange leaves it, and the parser with it.
pub uninterp spec fn examine_left(
    examine: ImapMailboxExamine,
    fragmentizer: Fragmentizer,
    bytes: Option<Seq<u8>>,
) -> (ImapMailboxExamine, Fragmentizer);

/// [`ImapMailboxExamine::new`] without parameters: an exchange that opens
/// `mailbox` read-only.
#[verifier::external_body]
pub(crate) fn examine_new(mailbox: &ImapMailbox) -> (r: ImapMailboxExamine)
    ensures
        examine_request(r) == Some(mailbox@),
{
    let mailbox = WireMailbox::try_from(mailbox.as_str().to_owned()).unwrap();
    ImapMailboxExamine::new(mailbox, ImapMailboxExamineOptions::default())
}

/// One step of [`ImapMailboxExamine`].
#[verifier::external_body]
pub(crate) fn examine_resume(
    examine: &mut ImapMailboxExamine,
    fragmentizer: &mut Fragmentizer,
    bytes: Option<&[u8]>,
) -> (r: EmailCoroutineState<ImapStep, Result<Option<u32>, ImapMailboxExamineError>>)
    requires
        examine_request(*old(examine)) is Some,
    ensures
        r.outcome() == examine_step(*old(examine), *old(fragmentizer), fed(bytes)),
        (*final(examine), *final(fragmentizer)) == examine_left(
            *old(examine),
            *old(fragmentizer),
            fed(bytes),
        ),
        r is Yielded ==> examine_request(*final(examine)) == examine_request(*old(examine)),
{
    match examine.resume(fragmentizer, bytes) {
        ImapCoroutineState::Yielded(ImapYield::WantsRead) => {
            EmailCoroutineState::Yielded(ImapStep::WantsRead)
        },
        ImapCoroutineState::Yielded(ImapYield::WantsWrite(out)) => {
            EmailCoroutineState::Yielded(ImapStep::WantsWrite(out))
        },
        ImapCoroutineState::Complete(Ok(data)) => EmailCoroutineState::Complete(Ok(data.exists)),
        ImapCoroutineState::Complete(Err(err)) => EmailCoroutineState::Complete(Err(err)),
    }
}

/// A SEARCH key of `imap_types`.
#[verifier::external_type_specification]
#[verifier::external_body]
pub struct ExImapSearchKey<'a>(ImapSearchKey<'a>);

/// The content of a SEARCH key.
pub uninterp spec fn key_content(key: ImapSearchKey<'static>) -> SearchKeyView;

/// The variants of [`ImapSearchKey`] without fields.
#[verifier::external_body]
pub(crate) fn key_plain(key: PlainKey) -> (r: ImapSearchKey<'static>)
    ensures
        key_content(r) == SearchKeyView::Plain(key),
{
    match key {
        PlainKey::All => ImapSearchKey::All,
        PlainKey::Seen => ImapSearchKey::Seen,
        PlainKey::Answered => ImapSearchKey::Answered,
        PlainKey::Flagged => ImapSearchKey::Flagged,
        PlainKey::Draft => ImapSearchKey::Draft,
        PlainKey::Deleted => ImapSearchKey::Deleted,
    }
}

/// The variants of [`ImapSearchKey`] that look for a text in a field.
#[verifier::external_body]
pub(crate) fn key_text(field: TextField, text: &str) -> (r: ImapSearchKey<'static>)
    requires
        transmissible(text@),
    ensures
        key_content(r) == SearchKeyView::Text(field, text@),
{
    let text = text.to_owned().try_into().unwrap();
    match field {
        TextField::From => ImapSearchKey::From(text),
        TextField::To => ImapSearchKey::To(text),
        TextField::Subject => ImapSearchKey::Subject(text),
        TextField::Body => ImapSearchKey::Body(text),
    }
}

/// [`ImapSearchKey::Header`].
#[verifier::external_body]
pub(crate) fn key_header(name: &str, text: &str) -> (r: ImapSearchKey<'static>)
    requires
        transmissible(name@),
        transmissible(text@),
    ensures
        key_content(r) == SearchKeyView::Header(name@, text@),
{
    let name = name.to_owned().try_into().unwrap();
    ImapSearchKey::Header(name, text.to_owned().try_into().unwrap())
}

/// [`ImapSearchKey::Keyword`].
#[verifier::external_body]
pub(crate) fn key_keyword(keyword: &str) -> (r: ImapSearchKey<'static>)
    requires
        atom(keyword@),
    ensures
        key_content(r) == SearchKeyView::Keyword(keyword@),
{
    ImapSearchKey::Keyword(keyword.to_owned().try_into().unwrap())
}

/// [`ImapSearchKey::SentSince`], and [`ImapSearchKey::SentOn`] where only
/// the day itself is meant. A date of the wire has a year of four digits.
#[verifier::external_body]
pub(crate) fn key_sent(date: Date, since: bool) -> (r: ImapSearchKey<'static>)
    requires
        0 <= date@.year <= 9999,
    ensures
        key_content(r) == SearchKeyView::Sent(date@, since),
{
    let date = chrono::NaiveDate::from_ymd_opt(date.year(), date.month(), date.day()).unwrap();
    let date = date.try_into().unwrap();
    match since {
        true => ImapSearchKey::SentSince(date),
        false => ImapSearchKey::SentOn(date),
    }
}

/// [`ImapSearchKey::And`] of two keys.
#[verifier::external_body]
pub(crate) fn key_and(left: ImapSearchKey<'static>, right: ImapSearchKey<'static>) -> (r:
    ImapSearchKey<'static>)
    ensures
        key_content(r) == SearchKeyView::And(
            Box::new(key_content(left)),
            Box::new(key_content(right)),
        ),
{
    ImapSearchKey::And(vec![left, right].try_into().unwrap())
}

/// [`ImapSearchKey::Or`].
#[verifier::external_body]
pub(crate) fn key_or(left: ImapSearchKey<'static>, right: ImapSearchKey<'static>) -> (r:
    ImapSearchKey<'static>)
    ensures
        key_content(r) == SearchKeyView::Or(
            Box::new(key_content(left)),
            Box::new(key_content(right)),
        ),
{
    ImapSearchKey::Or(Box::new(left), Box::new(right))
}

/// [`ImapSearchKey::Not`].
#[verifier::external_body]
pub(crate) fn key_not(inner: ImapSearchKey<'static>) -> (r: ImapSearchKey<'static>)
    ensures
        key_content(r) == SearchKeyView::Not(Box::new(key_content(inner))),
{
    ImapSearchKey::Not(Box::new(inner))
}

/// The SORT exchange of `io_imap`.
#[verifier::external_type_specification]
#[verifier::external_body]
pub struct ExImapMessageSort(ImapMessageSort);

/// Why a SORT failed.
#[verifier::external_type_specification]
#[verifier::external_body]
pub struct ExImapMessageSortError(ImapMessageSortError);

/// What a SORT exchange asks for.
pub struct SortRequest {
    pub criteria: Seq<SortCriterion>,
    pub key: SearchKeyView,
    /// Whether UIDs are asked for.
    pub uid: bool,
    /// Whether the messages are sorted here instead of by the server.
    pub fallback: bool,
}

/// What a SORT exchange asks for, `None` once it is over.
pub uninterp spec fn sort_request(sort: ImapMessageSort) -> Option<SortRequest>;

/// What the next step of a SORT exchange comes to: the ids in the order
/// asked for.
pub uninterp spec fn sort_step(
    sort: ImapMessageSort,
    fragmentizer: Fragmentizer,
    bytes: Option<Seq<u8>>,
) -> Outcome<Seq<u32>, ImapMessageSortError>;

/// Where the next step of a SORT exchange leaves it, and the parser with
/// it.
pub uninterp spec fn sort_left(
    sort: ImapMessageSort,
    fragmentizer: Fragmentizer,
    bytes: Option<Seq<u8>>,
) -> (ImapMessageSort, Fragmentizer);

/// Whether a step of a SORT exchange can come to `step` and leave the
/// exchange so: the tags of what it sends are fresh.
pub uninterp spec fn sort_can(
    sort: ImapMessageSort,
    fragmentizer: Fragmentizer,
    bytes: Option<Seq<u8>>,
    step: Outcome<Seq<u32>, ImapMessageSortError>,
    left: ImapMessageSort,
) -> bool;

/// [`ImapMessageSort::new`]: an exchange that sorts the messages matching
/// `key`.
#[verifier::external_body]
pub(crate) fn sort_new(
    criteria: &Vec<SortCriterion>,
    key: ImapSearchKey<'static>,
    uid: bool,
    fallback: bool,
) -> (r: ImapMessageSort)
    requires
        criteria@.len() > 0,
    ensures
        sort_request(r) == Some(
            SortRequest { criteria: criteria@, key: key_content(key), uid, fallback },
        ),
{
    let criteria: Vec<ImapSortCriterion> = criteria.iter().map(|c| ImapSortCriterion {
        reverse: c.reverse,
        key: match c.key {
            SearchEmailsSorterKind::Date => ImapSortKey::Date,
            SearchEmailsSorterKind::From => ImapSortKey::From,
            SearchEmailsSorterKind::To => ImapSortKey::To,
            SearchEmailsSorterKind::Subject => ImapSortKey::Subject,
        },
    }).collect();
    let opts = ImapMessageSortOptions { uid, fallback };
    ImapMessageSort::new(criteria.try_into().unwrap(), vec![key].try_into().unwrap(), opts)
}

/// One step of [`ImapMessageSort`]. Sorting here sends further commands, each
/// under a fresh tag: what is written then, and where the step leaves the
/// exchange, is one of the things it can come to. Ids are positive.
#[verifier::external_body]
pub(crate) fn sort_resume(
    sort: &mut ImapMessageSort,
    fragmentizer: &mut Fragmentizer,
    bytes: Option<&[u8]>,
) -> (r: EmailCoroutineState<ImapStep, Result<Vec<u32>, ImapMessageSortError>>)
    requires
        sort_request(*old(sort)) is Some,
    ensures
        r.outcome().settled() == sort_step(
            *old(sort),
            *old(fragmentizer),
            fed(bytes),
        ).settled(),
        sort_can(*old(sort), *old(fragmentizer), fed(bytes), r.outcome(), *final(sort)),
        *final(fragmentizer) == sort_left(*old(sort), *old(fragmentizer), fed(bytes)).1,
        !sort_request(*old(sort))->0.fallback ==> {
            &&& r.outcome() == sort_step(*old(sort), *old(fragmentizer), fed(bytes))
            &&& *final(sort) == sort_left(*old(sort), *old(fragmentizer), fed(bytes)).0
        },
        r is Yielded ==> sort_request(*final(sort)) == sort_request(*old(sort)),
        r matches EmailCoroutineState::Complete(Ok(ids)) ==> forall|i: int|
            0 <= i < ids@.len() ==> #[trigger] ids@[i] != 0,
{
    match sort.resume(fragmentizer, bytes) {
        ImapCoroutineState::Yielded(ImapYield::WantsRead) => {
            EmailCoroutineState::Yielded(ImapStep::WantsRead)
        },
        ImapCoroutineState::Yielded(ImapYield::WantsWrite(out)) => {
            EmailCoroutineState::Yielded(ImapStep::WantsWrite(out))
        },
        ImapCoroutineState::Complete(Ok(ids)) => EmailCoroutineState::Complete(Ok(
            ids.into_iter().map(|id| id.get()).collect(),
        )),
        ImapCoroutineState::Complete(Err(err)) => EmailCoroutineState::Complete(Err(err)),
    }
}

/// [`SequenceSet`]'s `TryFrom<Vec<NonZeroU32>>`: one number for each UID, in
/// their order.
#[verifier::external_body]
pub(crate) fn uid_sequence_set(uids: &UidSet) -> (r: SequenceSet)
    ensures
        set_items(r) == uid_items(uids@),
{
    let uids = uids.as_vec().iter().map(|uid| std::num::NonZeroU32::new(*uid).unwrap());
    SequenceSet::try_from(uids.collect::<Vec<_>>()).unwrap()
}

/// A flag of `imap_types`.
#[verifier::external_type_specification]
#[verifier::external_body]
pub struct ExWireFlag<'a>(WireFlag<'a>);

/// The content of a flag.
pub uninterp spec fn wire_flag_content(flag: WireFlag<'static>) -> ImapFlagView;

/// The variant of [`WireFlag`] for a flag.
#[verifier::external_body]
pub(crate) fn wire_flag(flag: &ImapFlag) -> (r: WireFlag<'static>)
    requires
        flag.deep_view().ok(),
    ensures
        wire_flag_content(r) == flag.deep_view(),
{
    match flag {
        ImapFlag::Seen => WireFlag::Seen,
        ImapFlag::Answered => WireFlag::Answered,
        ImapFlag::Flagged => WireFlag::Flagged,
        ImapFlag::Draft => WireFlag::Draft,
        ImapFlag::Deleted => WireFlag::Deleted,
        ImapFlag::Keyword(text) => WireFlag::keyword(text.clone().try_into().unwrap()),
    }
}

/// What flags of the wire say.
pub open spec fn wire_flags_content(flags: Seq<WireFlag<'static>>) -> Seq<ImapFlagView> {
    flags.map_values(|flag: WireFlag<'static>| wire_flag_content(flag))
}

/// What a STORE exchange asks for.
pub struct StoreRequest {
    pub set: Seq<SetItem>,
    pub op: FlagOp,
    pub flags: Seq<ImapFlagView>,
    /// Whether the set holds UIDs.
    pub uid: bool,
}

/// The STORE exchange of `io_imap`.
#[verifier::external_type_specification]
#[verifier::external_body]
pub struct ExImapMessageStore(ImapMessageStore);

/// Why a STORE failed.
#[verifier::external_type_specification]
#[verifier::external_body]
pub struct ExImapMessageStoreError(ImapMessageStoreError);

/// What a STORE exchange asks for, `None` once it is over.
pub uninterp spec fn store_request(store: ImapMessageStore) -> Option<StoreRequest>;

/// What the next step of a STORE exchange comes to.
pub uninterp spec fn store_step(
    store: ImapMessageStore,
    fragmentizer: Fragmentizer,
    bytes: Option<Seq<u8>>,
) -> Outcome<(), ImapMessageStoreError>;

/// Where the next step of a STORE exchange leaves it, and the parser with it.
pub uninterp spec fn store_left(
    store: ImapMessageStore,
    fragmentizer: Fragmentizer,
    bytes: Option<Seq<u8>>,
) -> (ImapMessageStore, Fragmentizer);

/// [`ImapMessageStore::new`]: an exchange that changes the flags of every
/// message in `set`.
#[verifier::external_body]
pub(crate) fn store_new(set: SequenceSet, op: FlagOp, flags: Vec<WireFlag<'static>>, uid: bool) -> (r: ImapMessageStore)
    ensures
        store_request(r) == Some(
            StoreRequest { set: set_items(set), op, flags: wire_flags_content(flags@), uid },
        ),
{
    let kind = match op {
        FlagOp::Add => StoreType::Add,
        FlagOp::Replace => StoreType::Replace,
        FlagOp::Remove => StoreType::Remove,
    };
    ImapMessageStore::new(set, kind, flags, ImapMessageStoreOptions { uid })
}

/// One step of [`ImapMessageStore`]. The flags that
/// the server answers with are not read.
#[verifier::external_body]
pub(crate) fn store_resume(
    store: &mut ImapMessageStore,
    fragmentizer: &mut Fragmentizer,
    bytes: Option<&[u8]>,
) -> (r: EmailCoroutineState<ImapStep, Result<(), ImapMessageStoreError>>)
    requires
        store_request(*old(store)) is Some,
    ensures
        r.outcome() == store_step(*old(store), *old(fragmentizer), fed(bytes)),
        (*final(store), *final(fragmentizer)) == store_left(
            *old(store),
            *old(fragmentizer),
            fed(bytes),
        ),
        r is Yielded ==> store_request(*final(store)) == store_request(*old(store)),
{
    match store.resume(fragmentizer, bytes) {
        ImapCoroutineState::Yielded(ImapYield::WantsRead) => {
            EmailCoroutineState::Yielded(ImapStep::WantsRead)
        },
        ImapCoroutineState::Yielded(ImapYield::WantsWrite(out)) => {
            EmailCoroutineState::Yielded(ImapStep::WantsWrite(out))
        },
        ImapCoroutineState::Complete(Ok(_)) => EmailCoroutineState::Complete(Ok(())),
        ImapCoroutineState::Complete(Err(err)) => EmailCoroutineState::Complete(Err(err)),
    }
}

/// What a COPY exchange asks for.
pub struct CopyRequest {
    pub set: Seq<SetItem>,
    /// The mailbox that the messages go to.
    pub mailbox: Seq<char>,
    /// Whether the set holds UIDs.
    pub uid: bool,
}

/// The COPY exchange of `io_imap`.
#[verifier::external_type_specification]
#[verifier::external_body]
pub struct ExWireCopy(WireCopy);

/// Why a COPY failed.
#[verifier::external_type_specification]
#[verifier::external_body]
pub struct ExWireCopyError(WireCopyError);

/// What a COPY exchange asks for, `None` once it is over.
pub uninterp spec fn copy_request(copy: WireCopy) -> Option<CopyRequest>;

/// What the next step of a COPY exchange comes to.
pub uninterp spec fn copy_step(
    copy: WireCopy,
    fragmentizer: Fragmentizer,
    bytes: Option<Seq<u8>>,
) -> Outcome<(), WireCopyError>;

/// Where the next step of a COPY exchange leaves it, and the parser with it.
pub uninterp spec fn copy_left(
    copy: WireCopy,
    fragmentizer: Fragmentizer,
    bytes: Option<Seq<u8>>,
) -> (WireCopy, Fragmentizer);

/// [`WireCopy::new`]: an exchange that copies every message in `set` to
/// `mailbox`.
#[verifier::external_body]
pub(crate) fn copy_new(set: SequenceSet, mailbox: &ImapMailbox, uid: bool) -> (r: WireCopy)
    ensures
        copy_request(r) == Some(CopyRequest { set: set_items(set), mailbox: mailbox@, uid }),
{
    let mailbox = WireMailbox::try_from(mailbox.as_str().to_owned()).unwrap();
    WireCopy::new(set, mailbox, ImapMessageCopyOptions { uid })
}

/// One step of [`WireCopy`].
#[verifier::external_body]
pub(crate) fn copy_resume(
    copy: &mut WireCopy,
    fragmentizer: &mut Fragmentizer,
    bytes: Option<&[u8]>,
) -> (r: EmailCoroutineState<ImapStep, Result<(), WireCopyError>>)
    requires
        copy_request(*old(copy)) is Some,
    ensures
        r.outcome() == copy_step(*old(copy), *old(fragmentizer), fed(bytes)),
        (*final(copy), *final(fragmentizer)) == copy_left(
            *old(copy),
            *old(fragmentizer),
            fed(bytes),
        ),
        r is Yielded ==> copy_request(*final(copy)) == copy_request(*old(copy)),
{
    match copy.resume(fragmentizer, bytes) {
        ImapCoroutineState::Yielded(ImapYield::WantsRead) => {
            EmailCoroutineState::Yielded(ImapStep::WantsRead)
        },
        ImapCoroutineState::Yielded(ImapYield::WantsWrite(out)) => {
            EmailCoroutineState::Yielded(ImapStep::WantsWrite(out))
        },
        ImapCoroutineState::Complete(Ok(_)) => EmailCoroutineState::Complete(Ok(())),
        ImapCoroutineState::Complete(Err(err)) => EmailCoroutineState::Complete(Err(err)),
    }
}

/// The EXPUNGE exchange of `io_imap`.
#[verifier::external_type_specification]
#[verifier::external_body]
pub struct ExImapMailboxExpunge(ImapMailboxExpunge);

/// Why an EXPUNGE failed.
#[verifier::external_type_specification]
#[verifier::external_body]
pub struct ExImapMailboxExpungeError(ImapMailboxExpungeError);

/// An EXPUNGE exchange asks for nothing in particular; `None` once it is
/// over.
pub uninterp spec fn expunge_request(expunge: ImapMailboxExpunge) -> Option<()>;

/// What the next step of an EXPUNGE exchange comes to.
pub uninterp spec fn expunge_step(
    expunge: ImapMailboxExpunge,
    fragmentizer: Fragmentizer,
    bytes: Option<Seq<u8>>,
) -> Outcome<(), ImapMailboxExpungeError>;

/// Where the next step of an EXPUNGE exchange leaves it, and the parser with it.
pub uninterp spec fn expunge_left(
    expunge: ImapMailboxExpunge,
    fragmentizer: Fragmentizer,
    bytes: Option<Seq<u8>>,
) -> (ImapMailboxExpunge, Fragmentizer);

/// [`ImapMailboxExpunge::new`].
#[verifier::external_body]
pub(crate) fn expunge_new() -> (r: ImapMailboxExpunge)
    ensures
        expunge_request(r) == Some(()),
{
    ImapMailboxExpunge::new()
}

/// One step of [`ImapMailboxExpunge`].
#[verifier::external_body]
pub(crate) fn expunge_resume(
    expunge: &mut ImapMailboxExpunge,
    fragmentizer: &mut Fragmentizer,
    bytes: Option<&[u8]>,
) -> (r: EmailCoroutineState<ImapStep, Result<(), ImapMailboxExpungeError>>)
    requires
        expunge_request(*old(expunge)) is Some,
    ensures
        r.outcome() == expunge_step(*old(expunge), *old(fragmentizer), fed(bytes)),
        (*final(expunge), *final(fragmentizer)) == expunge_left(
            *old(expunge),
            *old(fragmentizer),
            fed(bytes),
        ),
        r is Yielded ==> expunge_request(*final(expunge)) == expunge_request(*old(expunge)),
{
    match expunge.resume(fragmentizer, bytes) {
        ImapCoroutineState::Yielded(ImapYield::WantsRead) => {
            EmailCoroutineState::Yielded(ImapStep::WantsRead)
        },
        ImapCoroutineState::Yielded(ImapYield::WantsWrite(out)) => {
            EmailCoroutineState::Yielded(ImapStep::WantsWrite(out))
        },
        ImapCoroutineState::Complete(Ok(_)) => EmailCoroutineState::Complete(Ok(())),
        ImapCoroutineState::Complete(Err(err)) => EmailCoroutineState::Complete(Err(err)),
    }
}

/// The CREATE exchange of `io_imap`.
#[verifier::external_type_specification]
#[verifier::external_body]
pub struct ExWireCreate(WireCreate);

/// Why a CREATE failed.
#[verifier::external_type_specification]
#[verifier::external_body]
pub struct ExWireCreateError(WireCreateError);

/// The mailbox that a CREATE exchange is about, `None` once it is over.
pub uninterp spec fn create_request(create: WireCreate) -> Option<Seq<char>>;

/// What the next step of a CREATE exchange comes to.
pub uninterp spec fn create_step(
    create: WireCreate,
    fragmentizer: Fragmentizer,
    bytes: Option<Seq<u8>>,
) -> Outcome<(), WireCreateError>;

/// Where the next step of a CREATE exchange leaves it, and the parser with it.
pub uninterp spec fn create_left(
    create: WireCreate,
    fragmentizer: Fragmentizer,
    bytes: Option<Seq<u8>>,
) -> (WireCreate, Fragmentizer);

/// [`WireCreate::new`].
#[verifier::external_body]
pub(crate) fn create_new(mailbox: &ImapMailbox) -> (r: WireCreate)
    ensures
        create_request(r) == Some(mailbox@),
{
    WireCreate::new(WireMailbox::try_from(mailbox.as_str().to_owned()).unwrap())
}

/// One step of [`WireCreate`].
#[verifier::external_body]
pub(crate) fn create_resume(
    create: &mut WireCreate,
    fragmentizer: &mut Fragmentizer,
    bytes: Option<&[u8]>,
) -> (r: EmailCoroutineState<ImapStep, Result<(), WireCreateError>>)
    requires
        create_request(*old(create)) is Some,
    ensures
        r.outcome() == create_step(*old(create), *old(fragmentizer), fed(bytes)),
        (*final(create), *final(fragmentizer)) == create_left(
            *old(create),
            *old(fragmentizer),
            fed(bytes),
        ),
        r is Yielded ==> create_request(*final(create)) == create_request(*old(create)),
{
    match create.resume(fragmentizer, bytes) {
        ImapCoroutineState::Yielded(ImapYield::WantsRead) => {
            EmailCoroutineState::Yielded(ImapStep::WantsRead)
        },
        ImapCoroutineState::Yielded(ImapYield::WantsWrite(out)) => {
            EmailCoroutineState::Yielded(ImapStep::WantsWrite(out))
        },
        ImapCoroutineState::Complete(Ok(())) => EmailCoroutineState::Complete(Ok(())),
        ImapCoroutineState::Complete(Err(err)) => EmailCoroutineState::Complete(Err(err)),
    }
}

/// The DELETE exchange of `io_imap`.
#[verifier::external_type_specification]
#[verifier::external_body]
pub struct ExWireDelete(WireDelete);

/// Why a DELETE failed.
#[verifier::external_type_specification]
#[verifier::external_body]
pub struct ExWireDeleteError(WireDeleteError);

/// The mailbox that a DELETE exchange is about, `None` once it is over.
pub uninterp spec fn delete_request(delete: WireDelete) -> Option<Seq<char>>;

/// What the next step of a DELETE exchange comes to.
pub uninterp spec fn delete_step(
    delete: WireDelete,
    fragmentizer: Fragmentizer,
    bytes: Option<Seq<u8>>,
) -> Outcome<(), WireDeleteError>;

/// Where the next step of a DELETE exchange leaves it, and the parser with it.
pub uninterp spec fn delete_left(
    delete: WireDelete,
    fragmentizer: Fragmentizer,
    bytes: Option<Seq<u8>>,
) -> (WireDelete, Fragmentizer);

/// [`WireDelete::new`].
#[verifier::external_body]
pub(crate) fn delete_new(mailbox: &ImapMailbox) -> (r: WireDelete)
    ensures
        delete_request(r) == Some(mailbox@),
{
    WireDelete::new(WireMailbox::try_from(mailbox.as_str().to_owned()).unwrap())
}

/// One step of [`WireDelete`].
#[verifier::external_body]
pub(crate) fn delete_resume(
    delete: &mut WireDelete,
    fragmentizer: &mut Fragmentizer,
    bytes: Option<&[u8]>,
) -> (r: EmailCoroutineState<ImapStep, Result<(), WireDeleteError>>)
    requires
        delete_request(*old(delete)) is Some,
    ensures
        r.outcome() == delete_step(*old(delete), *old(fragmentizer), fed(bytes)),
        (*final(delete), *final(fragmentizer)) == delete_left(
            *old(delete),
            *old(fragmentizer),
            fed(bytes),
        ),
        r is Yielded ==> delete_request(*final(delete)) == delete_request(*old(delete)),
{
    match delete.resume(fragmentizer, bytes) {
        ImapCoroutineState::Yielded(ImapYield::WantsRead) => {
            EmailCoroutineState::Yielded(ImapStep::WantsRead)
        },
        ImapCoroutineState::Yielded(ImapYield::WantsWrite(out)) => {
            EmailCoroutineState::Yielded(ImapStep::WantsWrite(out))
        },
        ImapCoroutineState::Complete(Ok(())) => EmailCoroutineState::Complete(Ok(())),
        ImapCoroutineState::Complete(Err(err)) => EmailCoroutineState::Complete(Err(err)),
    }
}

/// The name in a LIST row.
pub enum ListName {
    /// `INBOX`, in any case.
    Inbox,
    Other(Vec<u8>),
}

/// An attribute in a LIST row.
#[derive(Clone, Copy, Debug, PartialEq, Eq, Structural)]
pub enum ListAttribute {
    /// The mailbox cannot be selected.
    Noselect,
    Other,
}

/// One row of a LIST response.
pub struct ListRow {
    pub name: ListName,
    pub attributes: Vec<ListAttribute>,
}

/// What a [`ListRow`] says; `None` for the inbox.
pub struct ListRowView {
    pub name: Option<Seq<u8>>,
    pub attributes: Seq<ListAttribute>,
}

impl DeepView for ListRow {
    type V = ListRowView;

    open spec fn deep_view(&self) -> ListRowView {
        ListRowView {
            name: match self.name {
                ListName::Inbox => None,
                ListName::Other(bytes) => Some(bytes@),
            },
            attributes: self.attributes@,
        }
    }
}

/// The LIST exchange of `io_imap`.
#[verifier::external_type_specification]
#[verifier::external_body]
pub struct ExWireList(WireList);

/// Why a LIST failed.
#[verifier::external_type_specification]
#[verifier::external_body]
pub struct ExWireListError(WireListError);

/// What a LIST exchange asks for: the mailboxes under `reference` whose
/// names match `pattern`.
pub struct ListRequest {
    pub reference: Seq<char>,
    pub pattern: Seq<char>,
}

/// What a LIST exchange asks for, `None` once it is over.
pub uninterp spec fn list_request(list: WireList) -> Option<ListRequest>;

/// What the next step of a LIST exchange comes to: the rows as they came.
pub uninterp spec fn list_step(
    list: WireList,
    fragmentizer: Fragmentizer,
    bytes: Option<Seq<u8>>,
) -> Outcome<Seq<ListRowView>, WireListError>;

/// Where the next step of a LIST exchange leaves it, and the parser with it.
pub uninterp spec fn list_left(
    list: WireList,
    fragmentizer: Fragmentizer,
    bytes: Option<Seq<u8>>,
) -> (WireList, Fragmentizer);

/// [`WireList::new`].
#[verifier::external_body]
pub(crate) fn list_new(reference: &str, pattern: &str) -> (r: WireList)
    requires
        transmissible(reference@),
        transmissible(pattern@),
    ensures
        list_request(r) == Some(ListRequest { reference: reference@, pattern: pattern@ }),
{
    let reference = reference.to_owned().try_into().unwrap();
    WireList::new(reference, pattern.to_owned().try_into().unwrap())
}

/// One step of [`WireList`]; of a row the name is read and, of each
/// attribute, whether it is `\Noselect`.
#[verifier::external_body]
pub(crate) fn list_resume(
    list: &mut WireList,
    fragmentizer: &mut Fragmentizer,
    bytes: Option<&[u8]>,
) -> (r: EmailCoroutineState<ImapStep, Result<Vec<ListRow>, WireListError>>)
    requires
        list_request(*old(list)) is Some,
    ensures
        r.outcome() == list_step(*old(list), *old(fragmentizer), fed(bytes)),
        (*final(list), *final(fragmentizer)) == list_left(
            *old(list),
            *old(fragmentizer),
            fed(bytes),
        ),
        r is Yielded ==> list_request(*final(list)) == list_request(*old(list)),
{
    match list.resume(fragmentizer, bytes) {
        ImapCoroutineState::Yielded(ImapYield::WantsRead) => EmailCoroutineState::Yielded(ImapStep::WantsRead),
        ImapCoroutineState::Yielded(ImapYield::WantsWrite(out)) => EmailCoroutineState::Yielded(ImapStep::WantsWrite(out)),
        ImapCoroutineState::Complete(Ok(rows)) => EmailCoroutineState::Complete(Ok(rows.into_iter().map(|row| ListRow {
            name: match row.0 {
                WireMailbox::Inbox => ListName::Inbox,
                WireMailbox::Other(name) => ListName::Other(name.inner().as_ref().to_vec()),
            },
            attributes: row.2.into_iter().map(|attribute| match attribute {
                FlagNameAttribute::Noselect => ListAttribute::Noselect,
                _ => ListAttribute::Other,
            }).collect(),
        }).collect())),
        ImapCoroutineState::Complete(Err(err)) => EmailCoroutineState::Complete(Err(err)),
    }
}

/// One item of a STATUS response.
#[derive(Clone, Copy, Debug, PartialEq, Eq, Structural)]
pub enum StatusItem {
    Messages(u32),
    Unseen(u32),
    Other,
}

impl DeepView for StatusItem {
    type V = StatusItem;

    open spec fn deep_view(&self) -> StatusItem {
        *self
    }
}

/// An item that a STATUS asks for.
#[derive(Clone, Copy, Debug, PartialEq, Eq, Structural)]
pub enum StatusName {
    Messages,
    Unseen,
}

/// What a STATUS exchange asks for.
pub struct StatusRequest {
    pub mailbox: Seq<char>,
    pub items: Seq<StatusName>,
}

/// The STATUS exchange of `io_imap`.
#[verifier::external_type_specification]
#[verifier::external_body]
pub struct ExImapMailboxStatus(ImapMailboxStatus);

/// Why a STATUS failed.
#[verifier::external_type_specification]
#[verifier::external_body]
pub struct ExImapMailboxStatusError(ImapMailboxStatusError);

/// What a STATUS exchange asks for, `None` once it is over.
pub uninterp spec fn status_request(status: ImapMailboxStatus) -> Option<StatusRequest>;

/// What the next step of a STATUS exchange comes to: the items as they came.
pub uninterp spec fn status_step(
    status: ImapMailboxStatus,
    fragmentizer: Fragmentizer,
    bytes: Option<Seq<u8>>,
) -> Outcome<Seq<StatusItem>, ImapMailboxStatusError>;

/// Where the next step of a STATUS exchange leaves it, and the parser with it.
pub uninterp spec fn status_left(
    status: ImapMailboxStatus,
    fragmentizer: Fragmentizer,
    bytes: Option<Seq<u8>>,
) -> (ImapMailboxStatus, Fragmentizer);

/// [`ImapMailboxStatus::new`].
#[verifier::external_body]
pub(crate) fn status_new(mailbox: &ImapMailbox, items: &Vec<StatusName>) -> (r: ImapMailboxStatus)
    ensures
        status_request(r) == Some(StatusRequest { mailbox: mailbox@, items: items@ }),
{
    let mailbox = WireMailbox::try_from(mailbox.as_str().to_owned()).unwrap();
    let items: Vec<StatusDataItemName> = items.iter().map(|name| match name {
        StatusName::Messages => StatusDataItemName::Messages,
        StatusName::Unseen => StatusDataItemName::Unseen,
    }).collect();
    ImapMailboxStatus::new(mailbox, items)
}

/// One step of [`ImapMailboxStatus`].
#[verifier::external_body]
pub(crate) fn status_resume(
    status: &mut ImapMailboxStatus,
    fragmentizer: &mut Fragmentizer,
    bytes: Option<&[u8]>,
) -> (r: EmailCoroutineState<ImapStep, Result<Vec<StatusItem>, ImapMailboxStatusError>>)
    requires
        status_request(*old(status)) is Some,
    ensures
        r.outcome() == status_step(*old(status), *old(fragmentizer), fed(bytes)),
        (*final(status), *final(fragmentizer)) == status_left(
            *old(status),
            *old(fragmentizer),
            fed(bytes),
        ),
        r is Yielded ==> status_request(*final(status)) == status_request(*old(status)),
{
    match status.resume(fragmentizer, bytes) {
        ImapCoroutineState::Yielded(ImapYield::WantsRead) => {
            EmailCoroutineState::Yielded(ImapStep::WantsRead)
        },
        ImapCoroutineState::Yielded(ImapYield::WantsWrite(out)) => {
            EmailCoroutineState::Yielded(ImapStep::WantsWrite(out))
        },
        ImapCoroutineState::Complete(Ok(items)) => EmailCoroutineState::Complete(Ok(items.into_iter().map(|item| match item {
            StatusDataItem::Messages(n) => StatusItem::Messages(n),
            StatusDataItem::Unseen(n) => StatusItem::Unseen(n),
            _ => StatusItem::Other,
        }).collect())),
        ImapCoroutineState::Complete(Err(err)) => EmailCoroutineState::Complete(Err(err)),
    }
}

/// What an APPEND exchange asks for.
pub struct AppendRequest {
    pub mailbox: Seq<char>,
    pub message: Seq<u8>,
    pub flags: Seq<ImapFlagView>,
}

/// The APPEND exchange of `io_imap`.
#[verifier::external_type_specification]
#[verifier::external_body]
pub struct ExImapMessageAppend(ImapMessageAppend);

/// Why an APPEND failed.
#[verifier::external_type_specification]
#[verifier::external_body]
pub struct ExImapMessageAppendError(ImapMessageAppendError);

/// What an APPEND exchange asks for, `None` once it is over.
pub uninterp spec fn append_request(append: ImapMessageAppend) -> Option<AppendRequest>;

/// What the next step of an APPEND exchange comes to: the UID of the new
/// message, where the server gives it.
pub uninterp spec fn append_step(
    append: ImapMessageAppend,
    fragmentizer: Fragmentizer,
    bytes: Option<Seq<u8>>,
) -> Outcome<Option<u32>, ImapMessageAppendError>;

/// Where the next step of an APPEND exchange leaves it, and the parser with it.
pub uninterp spec fn append_left(
    append: ImapMessageAppend,
    fragmentizer: Fragmentizer,
    bytes: Option<Seq<u8>>,
) -> (ImapMessageAppend, Fragmentizer);

/// [`ImapMessageAppend::new`] without a date, the message as a synchronising
/// literal. A literal holds no NUL.
#[verifier::external_body]
pub(crate) fn append_new(mailbox: &ImapMailbox, message: Vec<u8>, flags: Vec<WireFlag<'static>>) -> (r: ImapMessageAppend)
    requires
        !message@.contains(0u8),
    ensures
        append_request(r) == Some(
            AppendRequest {
                mailbox: mailbox@,
                message: message@,
                flags: wire_flags_content(flags@),
            },
        ),
{
    let mailbox = WireMailbox::try_from(mailbox.as_str().to_owned()).unwrap();
    let opts = ImapMessageAppendOptions { flags, date: None, non_sync: false };
    ImapMessageAppend::new(mailbox, message, opts)
}

/// One step of [`ImapMessageAppend`].
#[verifier::external_body]
pub(crate) fn append_resume(
    append: &mut ImapMessageAppend,
    fragmentizer: &mut Fragmentizer,
    bytes: Option<&[u8]>,
) -> (r: EmailCoroutineState<ImapStep, Result<Option<u32>, ImapMessageAppendError>>)
    requires
        append_request(*old(append)) is Some,
    ensures
        r.outcome() == append_step(*old(append), *old(fragmentizer), fed(bytes)),
        (*final(append), *final(fragmentizer)) == append_left(
            *old(append),
            *old(fragmentizer),
            fed(bytes),
        ),
        r is Yielded ==> append_request(*final(append)) == append_request(*old(append)),
{
    match append.resume(fragmentizer, bytes) {
        ImapCoroutineState::Yielded(ImapYield::WantsRead) => {
            EmailCoroutineState::Yielded(ImapStep::WantsRead)
        },
        ImapCoroutineState::Yielded(ImapYield::WantsWrite(out)) => {
            EmailCoroutineState::Yielded(ImapStep::WantsWrite(out))
        },
        ImapCoroutineState::Complete(Ok(appended)) => EmailCoroutineState::Complete(Ok(
            appended.1.map(|(_, uid)| uid),
        )),
        ImapCoroutineState::Complete(Err(err)) => EmailCoroutineState::Complete(Err(err)),
    }
}

/// The SEARCH exchange of `io_imap`.
#[verifier::external_type_specification]
#[verifier::external_body]
pub struct ExImapMessageSearch(ImapMessageSearch);

/// Why a SEARCH failed.
#[verifier::external_type_specification]
#[verifier::external_body]
pub struct ExImapMessageSearchError(ImapMessageSearchError);

/// What a SEARCH exchange asks for.
pub struct SearchRequest {
    pub key: SearchKeyView,
    /// Whether UIDs are asked for.
    pub uid: bool,
}

/// What a SEARCH exchange asks for, `None` once it is over.
pub uninterp spec fn search_request(search: ImapMessageSearch) -> Option<SearchRequest>;

/// What the next step of a SEARCH exchange comes to: the ids as they came.
pub uninterp spec fn search_step(
    search: ImapMessageSearch,
    fragmentizer: Fragmentizer,
    bytes: Option<Seq<u8>>,
) -> Outcome<Seq<u32>, ImapMessageSearchError>;

/// Where the next step of a SEARCH exchange leaves it, and the parser with it.
pub uninterp spec fn search_left(
    search: ImapMessageSearch,
    fragmentizer: Fragmentizer,
    bytes: Option<Seq<u8>>,
) -> (ImapMessageSearch, Fragmentizer);

/// [`ImapMessageSearch::new`].
#[verifier::external_body]
pub(crate) fn search_new(key: ImapSearchKey<'static>, uid: bool) -> (r: ImapMessageSearch)
    ensures
        search_request(r) == Some(SearchRequest { key: key_content(key), uid }),
{
    ImapMessageSearch::new(vec![key].try_into().unwrap(), ImapMessageSearchOptions { uid })
}

/// One step of [`ImapMessageSearch`].
#[verifier::external_body]
pub(crate) fn search_resume(
    search: &mut ImapMessageSearch,
    fragmentizer: &mut Fragmentizer,
    bytes: Option<&[u8]>,
) -> (r: EmailCoroutineState<ImapStep, Result<Vec<u32>, ImapMessageSearchError>>)
    requires
        search_request(*old(search)) is Some,
    ensures
        r.outcome() == search_step(*old(search), *old(fragmentizer), fed(bytes)),
        (*final(search), *final(fragmentizer)) == search_left(
            *old(search),
            *old(fragmentizer),
            fed(bytes),
        ),
        r is Yielded ==> search_request(*final(search)) == search_request(*old(search)),
{
    match search.resume(fragmentizer, bytes) {
        ImapCoroutineState::Yielded(ImapYield::WantsRead) => {
            EmailCoroutineState::Yielded(ImapStep::WantsRead)
        },
        ImapCoroutineState::Yielded(ImapYield::WantsWrite(out)) => {
            EmailCoroutineState::Yielded(ImapStep::WantsWrite(out))
        },
        ImapCoroutineState::Complete(Ok(ids)) => EmailCoroutineState::Complete(Ok(
            ids.into_iter().map(|id| id.get()).collect(),
        )),
        ImapCoroutineState::Complete(Err(err)) => EmailCoroutineState::Complete(Err(err)),
    }
}

} // verus!
