//! The exchanges of `io_gmail` that the Gmail coroutines are made of, each
//! behind a name for what it comes to.
use vstd::prelude::*;

use io_gmail::coroutine::{GmailCoroutine, GmailCoroutineState, GmailYield};
use io_gmail::v1::rest::messages::get::GmailMessageGet;
use io_gmail::v1::rest::messages::list::{GmailMessagesList, GmailMessagesListParams};
use io_gmail::v1::rest::messages::modify::GmailMessageModify;
use io_gmail::v1::rest::messages::{GmailMessage, GmailMessageFormat};
use io_gmail::v1::send::GmailSendError;
use io_http::rfc6750::bearer::HttpAuthBearer;

use crate::coroutine::{fed, EmailCoroutineState, GmailStep, Outcome};
use crate::gmail::convert::{GmailMetadata, GmailMetadataView};
use crate::http::{
    faulted, guard, guarded_built, guarded_left, guarded_step, Framing, Guarded, HttpFault,
};

verus! {

/// A bearer token.
#[verifier::external_type_specification]
#[verifier::external_body]
pub struct ExHttpAuthBearer(HttpAuthBearer);

/// Why a Gmail exchange failed.
#[verifier::external_type_specification]
#[verifier::external_body]
pub struct ExGmailSendError(GmailSendError);

/// [`HttpAuthBearer`]'s `Clone`.
#[verifier::external_body]
pub(crate) fn clone_auth(auth: &HttpAuthBearer) -> (r: HttpAuthBearer)
    ensures
        r == *auth,
{
    auth.clone()
}

/// A message of `io_gmail`.
#[verifier::external_type_specification]
#[verifier::external_body]
pub struct ExGmailMessage(GmailMessage);

/// The metadata of a message.
pub uninterp spec fn message_metadata(message: GmailMessage) -> GmailMetadataView;

/// The fields of a [`GmailMessage`] that an envelope needs.
#[verifier::external_body]
pub(crate) fn read_message(message: GmailMessage) -> (r: GmailMetadata)
    ensures
        r.deep_view() == message_metadata(message),
{
    GmailMetadata {
        id: message.id,
        label_ids: message.label_ids,
        size_estimate: message.size_estimate,
        headers: message.payload.map(|payload| {
            payload.headers.into_iter().map(|header| (header.name, header.value)).collect()
        }),
    }
}

/// A message as it came.
pub struct FetchedMessage {
    pub message: GmailMessage,
}

impl DeepView for FetchedMessage {
    type V = GmailMessage;

    open spec fn deep_view(&self) -> GmailMessage {
        self.message
    }
}

/// What a listing of messages asks for: one page of those that have all the
/// labels.
pub struct ListRequest {
    pub auth: HttpAuthBearer,
    pub user_id: Seq<char>,
    pub label_ids: Seq<Seq<char>>,
    pub max_results: Option<u32>,
    pub page_token: Option<Seq<char>>,
    pub include_spam_trash: bool,
}

/// A page of a listing.
#[derive(Debug)]
pub struct MessagePage {
    pub ids: Vec<String>,
    /// Where the next page begins, `None` on the last one.
    pub next_page_token: Option<String>,
}

/// What a [`MessagePage`] says.
pub struct MessagePageView {
    pub ids: Seq<Seq<char>>,
    pub next_page_token: Option<Seq<char>>,
}

impl DeepView for MessagePage {
    type V = MessagePageView;

    open spec fn deep_view(&self) -> MessagePageView {
        MessagePageView {
            ids: self.ids.deep_view(),
            next_page_token: self.next_page_token.deep_view(),
        }
    }
}

/// The `users.messages.list` exchange of `io_gmail`.
#[verifier::external_type_specification]
#[verifier::external_body]
pub struct ExGmailMessagesList(GmailMessagesList);

/// What [`GmailMessagesList::new`] gives for a request.
pub uninterp spec fn list_made(request: ListRequest) -> Result<GmailMessagesList, GmailSendError>;

/// Whether the exchange is over: it is not to be resumed then.
pub uninterp spec fn list_ended(list: GmailMessagesList) -> bool;

/// What the next step of the exchange comes to.
pub uninterp spec fn list_outcome(list: GmailMessagesList, bytes: Option<Seq<u8>>) -> Outcome<MessagePageView, GmailSendError>;

/// The exchange after that step.
pub uninterp spec fn list_next(list: GmailMessagesList, bytes: Option<Seq<u8>>) -> GmailMessagesList;

/// Where the reply that the exchange reads stands.
pub uninterp spec fn list_framing(list: GmailMessagesList) -> Framing;

/// The request of a listing.
pub open spec fn list_of(
    auth: HttpAuthBearer,
    user_id: Seq<char>,
    label_ids: Seq<Seq<char>>,
    max_results: Option<u32>,
    page_token: Option<Seq<char>>,
    include_spam_trash: bool,
) -> ListRequest {
    ListRequest { auth, user_id, label_ids, max_results, page_token, include_spam_trash }
}

/// [`GmailMessagesList::new`] without a search.
#[verifier::external_body]
fn list_make(
    auth: &HttpAuthBearer,
    user_id: &str,
    label_ids: &Vec<String>,
    max_results: Option<u32>,
    page_token: &Option<String>,
    include_spam_trash: bool,
) -> (r: Result<GmailMessagesList, GmailSendError>)
    ensures
        r == list_made(list_of(
                *auth,
                user_id@,
                label_ids.deep_view(),
                max_results,
                page_token.deep_view(),
                include_spam_trash,
            )),
        r matches Ok(list) ==> !list_ended(list) && list_framing(list) == (Framing::Unsent {
            streamed: false,
        }),
{
    let params = GmailMessagesListParams {
        q: None,
        label_ids,
        max_results,
        page_token: page_token.as_deref(),
        include_spam_trash,
    };
    GmailMessagesList::new(auth, user_id, &params)
}

/// One step of [`GmailMessagesList`].
#[verifier::external_body]
fn list_run(list: &mut GmailMessagesList, bytes: Option<&[u8]>) -> (r: EmailCoroutineState<
    GmailStep,
    Result<MessagePage, GmailSendError>,
>)
    requires
        !list_ended(*old(list)),
        !list_framing(*old(list)).after(fed(bytes)).oversized(),
    ensures
        r.outcome() == list_outcome(*old(list), fed(bytes)),
        *final(list) == list_next(*old(list), fed(bytes)),
        r is Yielded ==> {
            &&& !list_ended(*final(list))
            &&& list_framing(*final(list)) == list_framing(*old(list)).after(fed(bytes))
        },
{
    match list.resume(bytes) {
        GmailCoroutineState::Yielded(GmailYield::WantsRead) => {
            EmailCoroutineState::Yielded(GmailStep::WantsRead)
        },
        GmailCoroutineState::Yielded(GmailYield::WantsWrite(out)) => {
            EmailCoroutineState::Yielded(GmailStep::WantsWrite(out))
        },
        GmailCoroutineState::Complete(Ok(output)) => {
            EmailCoroutineState::Complete(Ok(MessagePage {
                ids: output.response.messages.into_iter().map(|message| message.id).collect(),
                next_page_token: output.response.next_page_token,
            }))
        },
        GmailCoroutineState::Complete(Err(err)) => EmailCoroutineState::Complete(Err(err)),
    }
}

/// The exchange for a request, and the framing of its reply.
pub open spec fn list_built(request: ListRequest) -> Result<Guarded<GmailMessagesList>, HttpFault<GmailSendError>> {
    guarded_built(list_made(request), false)
}

/// Whether the exchange is not to be resumed: it is over, or its framing was
/// not followed.
pub open spec fn list_over(list: Guarded<GmailMessagesList>) -> bool {
    list_ended(list.exchange) || list_framing(list.exchange) != list.framing
}

/// What the next step comes to; a reply that announces too large a chunk is
/// refused.
pub open spec fn list_step(list: Guarded<GmailMessagesList>, bytes: Option<Seq<u8>>) -> Outcome<
    MessagePageView,
    HttpFault<GmailSendError>,
> {
    guarded_step(list.framing, bytes, list_outcome(list.exchange, bytes))
}

/// The exchange after that step.
pub open spec fn list_left(list: Guarded<GmailMessagesList>, bytes: Option<Seq<u8>>) -> Guarded<GmailMessagesList> {
    guarded_left(list, bytes, list_next(list.exchange, bytes))
}

/// Starts the exchange.
pub(crate) fn list_new(
    auth: &HttpAuthBearer,
    user_id: &str,
    label_ids: &Vec<String>,
    max_results: Option<u32>,
    page_token: &Option<String>,
    include_spam_trash: bool,
) -> (r: Result<Guarded<GmailMessagesList>, HttpFault<GmailSendError>>)
    ensures
        r == list_built(list_of(
                *auth,
                user_id@,
                label_ids.deep_view(),
                max_results,
                page_token.deep_view(),
                include_spam_trash,
            )),
        r matches Ok(list) ==> !list_over(list),
{
    guard(list_make(auth, user_id, label_ids, max_results, page_token, include_spam_trash), false)
}

/// Takes one step, unless the reply is refused.
pub(crate) fn list_resume(list: &mut Guarded<GmailMessagesList>, bytes: Option<&[u8]>) -> (r:
    EmailCoroutineState<GmailStep, Result<MessagePage, HttpFault<GmailSendError>>>)
    requires
        !list_over(*old(list)),
    ensures
        r.outcome() == list_step(*old(list), fed(bytes)),
        *final(list) == list_left(*old(list), fed(bytes)),
        r is Yielded ==> !list_over(*final(list)),
{
    if !list.admits(bytes) {
        return EmailCoroutineState::Complete(Err(HttpFault::ChunkSize));
    }
    faulted(list_run(&mut list.exchange, bytes))
}

/// What a fetch of a message's metadata asks for.
pub struct GetRequest {
    pub auth: HttpAuthBearer,
    pub user_id: Seq<char>,
    pub id: Seq<char>,
}

/// The `users.messages.get` exchange of `io_gmail`.
#[verifier::external_type_specification]
#[verifier::external_body]
pub struct ExGmailMessageGet(GmailMessageGet);

/// What [`GmailMessageGet::new`] gives for a request.
pub uninterp spec fn get_made(request: GetRequest) -> Result<GmailMessageGet, GmailSendError>;

/// Whether the exchange is over: it is not to be resumed then.
pub uninterp spec fn get_ended(get: GmailMessageGet) -> bool;

/// What the next step of the exchange comes to.
pub uninterp spec fn get_outcome(get: GmailMessageGet, bytes: Option<Seq<u8>>) -> Outcome<GmailMessage, GmailSendError>;

/// The exchange after that step.
pub uninterp spec fn get_next(get: GmailMessageGet, bytes: Option<Seq<u8>>) -> GmailMessageGet;

/// Where the reply that the exchange reads stands.
pub uninterp spec fn get_framing(get: GmailMessageGet) -> Framing;

/// [`GmailMessageGet::new`] for the metadata with all headers.
#[verifier::external_body]
fn get_make(
    auth: &HttpAuthBearer,
    user_id: &str,
    id: &str,
) -> (r: Result<GmailMessageGet, GmailSendError>)
    ensures
        r == get_made((GetRequest { auth: *auth, user_id: user_id@, id: id@ })),
        r matches Ok(get) ==> !get_ended(get) && get_framing(get) == (Framing::Unsent {
            streamed: false,
        }),
{
    GmailMessageGet::new(auth, user_id, id, GmailMessageFormat::Metadata, &[])
}

/// One step of [`GmailMessageGet`].
#[verifier::external_body]
fn get_run(get: &mut GmailMessageGet, bytes: Option<&[u8]>) -> (r: EmailCoroutineState<
    GmailStep,
    Result<FetchedMessage, GmailSendError>,
>)
    requires
        !get_ended(*old(get)),
        !get_framing(*old(get)).after(fed(bytes)).oversized(),
    ensures
        r.outcome() == get_outcome(*old(get), fed(bytes)),
        *final(get) == get_next(*old(get), fed(bytes)),
        r is Yielded ==> {
            &&& !get_ended(*final(get))
            &&& get_framing(*final(get)) == get_framing(*old(get)).after(fed(bytes))
        },
{
    match get.resume(bytes) {
        GmailCoroutineState::Yielded(GmailYield::WantsRead) => {
            EmailCoroutineState::Yielded(GmailStep::WantsRead)
        },
        GmailCoroutineState::Yielded(GmailYield::WantsWrite(out)) => {
            EmailCoroutineState::Yielded(GmailStep::WantsWrite(out))
        },
        GmailCoroutineState::Complete(Ok(output)) => {
            EmailCoroutineState::Complete(Ok(FetchedMessage { message: output.response }))
        },
        GmailCoroutineState::Complete(Err(err)) => EmailCoroutineState::Complete(Err(err)),
    }
}

/// The exchange for a request, and the framing of its reply.
pub open spec fn get_built(request: GetRequest) -> Result<Guarded<GmailMessageGet>, HttpFault<GmailSendError>> {
    guarded_built(get_made(request), false)
}

/// Whether the exchange is not to be resumed: it is over, or its framing was
/// not followed.
pub open spec fn get_over(get: Guarded<GmailMessageGet>) -> bool {
    get_ended(get.exchange) || get_framing(get.exchange) != get.framing
}

/// What the next step comes to; a reply that announces too large a chunk is
/// refused.
pub open spec fn get_step(get: Guarded<GmailMessageGet>, bytes: Option<Seq<u8>>) -> Outcome<
    GmailMessage,
    HttpFault<GmailSendError>,
> {
    guarded_step(get.framing, bytes, get_outcome(get.exchange, bytes))
}

/// The exchange after that step.
pub open spec fn get_left(get: Guarded<GmailMessageGet>, bytes: Option<Seq<u8>>) -> Guarded<GmailMessageGet> {
    guarded_left(get, bytes, get_next(get.exchange, bytes))
}

/// Starts the exchange.
pub(crate) fn get_new(
    auth: &HttpAuthBearer,
    user_id: &str,
    id: &str,
) -> (r: Result<Guarded<GmailMessageGet>, HttpFault<GmailSendError>>)
    ensures
        r == get_built((GetRequest { auth: *auth, user_id: user_id@, id: id@ })),
        r matches Ok(get) ==> !get_over(get),
{
    guard(get_make(auth, user_id, id), false)
}

/// Takes one step, unless the reply is refused.
pub(crate) fn get_resume(get: &mut Guarded<GmailMessageGet>, bytes: Option<&[u8]>) -> (r:
    EmailCoroutineState<GmailStep, Result<FetchedMessage, HttpFault<GmailSendError>>>)
    requires
        !get_over(*old(get)),
    ensures
        r.outcome() == get_step(*old(get), fed(bytes)),
        *final(get) == get_left(*old(get), fed(bytes)),
        r is Yielded ==> !get_over(*final(get)),
{
    if !get.admits(bytes) {
        return EmailCoroutineState::Complete(Err(HttpFault::ChunkSize));
    }
    faulted(get_run(&mut get.exchange, bytes))
}

/// What a change of a message's labels asks for.
pub struct ModifyRequest {
    pub auth: HttpAuthBearer,
    pub user_id: Seq<char>,
    pub id: Seq<char>,
    pub add: Seq<Seq<char>>,
    pub remove: Seq<Seq<char>>,
}

/// The `users.messages.modify` exchange of `io_gmail`.
#[verifier::external_type_specification]
#[verifier::external_body]
pub struct ExGmailMessageModify(GmailMessageModify);

/// What [`GmailMessageModify::new`] gives for a request.
pub uninterp spec fn modify_made(request: ModifyRequest) -> Result<GmailMessageModify, GmailSendError>;

/// Whether the exchange is over: it is not to be resumed then.
pub uninterp spec fn modify_ended(modify: GmailMessageModify) -> bool;

/// What the next step of the exchange comes to.
pub uninterp spec fn modify_outcome(modify: GmailMessageModify, bytes: Option<Seq<u8>>) -> Outcome<(), GmailSendError>;

/// The exchange after that step.
pub uninterp spec fn modify_next(modify: GmailMessageModify, bytes: Option<Seq<u8>>) -> GmailMessageModify;

/// Where the reply that the exchange reads stands.
pub uninterp spec fn modify_framing(modify: GmailMessageModify) -> Framing;

/// [`GmailMessageModify::new`].
#[verifier::external_body]
fn modify_make(
    auth: &HttpAuthBearer,
    user_id: &str,
    id: &str,
    add: &Vec<String>,
    remove: &Vec<String>,
) -> (r: Result<GmailMessageModify, GmailSendError>)
    ensures
        r == modify_made((ModifyRequest {
                auth: *auth,
                user_id: user_id@,
                id: id@,
                add: add.deep_view(),
                remove: remove.deep_view(),
            })),
        r matches Ok(modify) ==> !modify_ended(modify) && modify_framing(modify) == (Framing::Unsent {
            streamed: false,
        }),
{
    GmailMessageModify::new(auth, user_id, id, add, remove)
}

/// One step of [`GmailMessageModify`].
#[verifier::external_body]
fn modify_run(modify: &mut GmailMessageModify, bytes: Option<&[u8]>) -> (r: EmailCoroutineState<
    GmailStep,
    Result<(), GmailSendError>,
>)
    requires
        !modify_ended(*old(modify)),
        !modify_framing(*old(modify)).after(fed(bytes)).oversized(),
    ensures
        r.outcome() == modify_outcome(*old(modify), fed(bytes)),
        *final(modify) == modify_next(*old(modify), fed(bytes)),
        r is Yielded ==> {
            &&& !modify_ended(*final(modify))
            &&& modify_framing(*final(modify)) == modify_framing(*old(modify)).after(fed(bytes))
        },
{
    match modify.resume(bytes) {
        GmailCoroutineState::Yielded(GmailYield::WantsRead) => {
            EmailCoroutineState::Yielded(GmailStep::WantsRead)
        },
        GmailCoroutineState::Yielded(GmailYield::WantsWrite(out)) => {
            EmailCoroutineState::Yielded(GmailStep::WantsWrite(out))
        },
        GmailCoroutineState::Complete(Ok(_)) => {
            EmailCoroutineState::Complete(Ok(()))
        },
        GmailCoroutineState::Complete(Err(err)) => EmailCoroutineState::Complete(Err(err)),
    }
}

/// The exchange for a request, and the framing of its reply.
pub open spec fn modify_built(request: ModifyRequest) -> Result<Guarded<GmailMessageModify>, HttpFault<GmailSendError>> {
    guarded_built(modify_made(request), false)
}

/// Whether the exchange is not to be resumed: it is over, or its framing was
/// not followed.
pub open spec fn modify_over(modify: Guarded<GmailMessageModify>) -> bool {
    modify_ended(modify.exchange) || modify_framing(modify.exchange) != modify.framing
}

/// What the next step comes to; a reply that announces too large a chunk is
/// refused.
pub open spec fn modify_step(modify: Guarded<GmailMessageModify>, bytes: Option<Seq<u8>>) -> Outcome<
    (),
    HttpFault<GmailSendError>,
> {
    guarded_step(modify.framing, bytes, modify_outcome(modify.exchange, bytes))
}

/// The exchange after that step.
pub open spec fn modify_left(modify: Guarded<GmailMessageModify>, bytes: Option<Seq<u8>>) -> Guarded<GmailMessageModify> {
    guarded_left(modify, bytes, modify_next(modify.exchange, bytes))
}

/// Starts the exchange.
pub(crate) fn modify_new(
    auth: &HttpAuthBearer,
    user_id: &str,
    id: &str,
    add: &Vec<String>,
    remove: &Vec<String>,
) -> (r: Result<Guarded<GmailMessageModify>, HttpFault<GmailSendError>>)
    ensures
        r == modify_built((ModifyRequest {
                auth: *auth,
                user_id: user_id@,
                id: id@,
                add: add.deep_view(),
                remove: remove.deep_view(),
            })),
        r matches Ok(modify) ==> !modify_over(modify),
{
    guard(modify_make(auth, user_id, id, add, remove), false)
}

/// Takes one step, unless the reply is refused.
pub(crate) fn modify_resume(modify: &mut Guarded<GmailMessageModify>, bytes: Option<&[u8]>) -> (r:
    EmailCoroutineState<GmailStep, Result<(), HttpFault<GmailSendError>>>)
    requires
        !modify_over(*old(modify)),
    ensures
        r.outcome() == modify_step(*old(modify), fed(bytes)),
        *final(modify) == modify_left(*old(modify), fed(bytes)),
        r is Yielded ==> !modify_over(*final(modify)),
{
    if !modify.admits(bytes) {
        return EmailCoroutineState::Complete(Err(HttpFault::ChunkSize));
    }
    faulted(modify_run(&mut modify.exchange, bytes))
}

} // verus!
