//! Which of several registered backends serves an operation.
//!
//! Storage operations go to Maildir, m2dir, JMAP and IMAP in this order of
//! priority, sending to JMAP and then SMTP, watching to JMAP and then IMAP.
use vstd::prelude::*;

use crate::coroutine::EmailBackend;

verus! {

/// An operation of the shared client.
#[derive(Clone, Copy, Debug, PartialEq, Eq, Structural)]
pub enum Operation {
    ListMailboxes,
    ListEnvelopes,
    SearchEnvelopes,
    StoreFlags,
    GetMessage,
    AddMessage,
    CreateMailbox,
    DeleteMailbox,
    DeleteMessage,
    CopyMessages,
    MoveMessages,
    DiffEnvelopes,
    DiffMailboxes,
    WatchMailbox,
    SendMessage,
}

/// Why no backend serves an operation.
#[derive(Clone, Copy, Debug, PartialEq, Eq, Structural)]
pub enum RouteError {
    /// No backend supporting this operation is registered.
    NoBackendRegistered,
    /// Registered backend does not support this operation.
    UnsupportedOperation,
}

/// The backends that are registered.
#[derive(Clone, Copy, Debug, PartialEq, Eq, Structural)]
pub struct Registered {
    pub imap: bool,
    pub jmap: bool,
    pub smtp: bool,
    pub maildir: bool,
    pub m2dir: bool,
}

impl Registered {
    /// Whether a backend is registered.
    pub open spec fn has(self, backend: EmailBackend) -> bool {
        match backend {
            EmailBackend::Imap => self.imap,
            EmailBackend::Jmap => self.jmap,
            EmailBackend::Smtp => self.smtp,
            EmailBackend::Maildir => self.maildir,
            EmailBackend::M2dir => self.m2dir,
        }
    }

    /// No backend at all.
    pub fn none() -> (r: Registered)
        ensures
            forall|backend: EmailBackend| !#[trigger] r.has(backend),
    {
        Registered { imap: false, jmap: false, smtp: false, maildir: false, m2dir: false }
    }

    /// Registers one more backend.
    pub fn with(self, backend: EmailBackend) -> (r: Registered)
        ensures
            forall|other: EmailBackend| #[trigger] r.has(other) == (self.has(other) || other == backend),
    {
        match backend {
            EmailBackend::Imap => Registered { imap: true, ..self },
            EmailBackend::Jmap => Registered { jmap: true, ..self },
            EmailBackend::Smtp => Registered { smtp: true, ..self },
            EmailBackend::Maildir => Registered { maildir: true, ..self },
            EmailBackend::M2dir => Registered { m2dir: true, ..self },
        }
    }

    fn contains(self, backend: EmailBackend) -> (r: bool)
        ensures
            r == self.has(backend),
    {
        match backend {
            EmailBackend::Imap => self.imap,
            EmailBackend::Jmap => self.jmap,
            EmailBackend::Smtp => self.smtp,
            EmailBackend::Maildir => self.maildir,
            EmailBackend::M2dir => self.m2dir,
        }
    }

    /// The first of some backends that is registered.
    pub open spec fn first_of(self, backends: Seq<EmailBackend>) -> Option<EmailBackend>
        decreases backends.len(),
    {
        if backends.len() == 0 {
            None
        } else if self.has(backends[0]) {
            Some(backends[0])
        } else {
            self.first_of(backends.skip(1))
        }
    }

    fn find_first(self, backends: &[EmailBackend]) -> (r: Option<EmailBackend>)
        ensures
            r == self.first_of(backends@),
    {
        proof {
            assert(backends@.skip(0) =~= backends@);
        }
        let mut i: usize = 0;
        while i < backends.len()
            invariant
                i <= backends@.len(),
                self.first_of(backends@) == self.first_of(backends@.skip(i as int)),
            decreases backends@.len() - i,
        {
            proof {
                assert(backends@.skip(i as int)[0] == backends@[i as int]);
                assert(backends@.skip(i as int).skip(1) =~= backends@.skip(i + 1));
            }
            if self.contains(backends[i]) {
                return Some(backends[i]);
            }
            i = i + 1;
        }
        None
    }
}

/// The backends that serve an operation, by priority.
pub open spec fn priority(operation: Operation) -> Seq<EmailBackend> {
    match operation {
        Operation::DiffEnvelopes => seq![EmailBackend::Jmap, EmailBackend::Imap],
        Operation::DiffMailboxes => seq![EmailBackend::Jmap],
        Operation::WatchMailbox => seq![EmailBackend::Jmap, EmailBackend::Imap],
        Operation::SendMessage => seq![EmailBackend::Jmap, EmailBackend::Smtp],
        _ => seq![
            EmailBackend::Maildir,
            EmailBackend::M2dir,
            EmailBackend::Jmap,
            EmailBackend::Imap,
        ],
    }
}

/// What an operation comes to where no backend serves it: a difference is
/// not supported, and the caller lists instead.
pub open spec fn refusal(operation: Operation) -> RouteError {
    match operation {
        Operation::DiffEnvelopes | Operation::DiffMailboxes => RouteError::UnsupportedOperation,
        _ => RouteError::NoBackendRegistered,
    }
}

/// The backend that serves an operation: the first by priority that is
/// registered.
pub open spec fn routed(registered: Registered, operation: Operation) -> Result<
    EmailBackend,
    RouteError,
> {
    match registered.first_of(priority(operation)) {
        Some(backend) => Ok(backend),
        None => Err(refusal(operation)),
    }
}

/// Picks the backend that serves an operation.
pub fn route(registered: Registered, operation: Operation) -> (r: Result<EmailBackend, RouteError>)
    ensures
        r == routed(registered, operation),
{
    let found = match operation {
        Operation::DiffEnvelopes | Operation::WatchMailbox => {
            let backends: [EmailBackend; 2] = [EmailBackend::Jmap, EmailBackend::Imap];
            proof {
                assert(backends@ =~= priority(operation));
            }
            registered.find_first(&backends)
        },
        Operation::DiffMailboxes => {
            let backends: [EmailBackend; 1] = [EmailBackend::Jmap];
            proof {
                assert(backends@ =~= priority(operation));
            }
            registered.find_first(&backends)
        },
        Operation::SendMessage => {
            let backends: [EmailBackend; 2] = [EmailBackend::Jmap, EmailBackend::Smtp];
            proof {
                assert(backends@ =~= priority(operation));
            }
            registered.find_first(&backends)
        },
        _ => {
            let backends: [EmailBackend; 4] = [
                EmailBackend::Maildir,
                EmailBackend::M2dir,
                EmailBackend::Jmap,
                EmailBackend::Imap,
            ];
            proof {
                assert(backends@ =~= priority(operation));
            }
            registered.find_first(&backends)
        },
    };
    match found {
        Some(backend) => Ok(backend),
        None => match operation {
            Operation::DiffEnvelopes | Operation::DiffMailboxes => Err(
                RouteError::UnsupportedOperation,
            ),
            _ => Err(RouteError::NoBackendRegistered),
        },
    }
}

/// The backends whose sessions are kept alive, in the order they are pinged:
/// the others have none.
pub open spec fn pinged(registered: Registered) -> Seq<EmailBackend> {
    let imap: Seq<EmailBackend> = if registered.imap {
        seq![EmailBackend::Imap]
    } else {
        seq![]
    };
    let smtp: Seq<EmailBackend> = if registered.smtp {
        seq![EmailBackend::Smtp]
    } else {
        seq![]
    };
    imap + smtp
}

/// The backends to ping.
pub fn ping_targets(registered: Registered) -> (r: Vec<EmailBackend>)
    ensures
        r@ == pinged(registered),
{
    let mut out: Vec<EmailBackend> = Vec::new();
    if registered.imap {
        out.push(EmailBackend::Imap);
    }
    if registered.smtp {
        out.push(EmailBackend::Smtp);
    }
    proof {
        assert(out@ =~= pinged(registered));
    }
    out
}

proof fn lemma_first_of(registered: Registered, backends: Seq<EmailBackend>)
    ensures
        match registered.first_of(backends) {
            Some(found) => exists|i: int|
                0 <= i < backends.len() && #[trigger] backends[i] == found && registered.has(found)
                    && forall|j: int| 0 <= j < i ==> !registered.has(#[trigger] backends[j]),
            None => forall|i: int| 0 <= i < backends.len() ==> !registered.has(#[trigger] backends[i]),
        },
    decreases backends.len(),
{
    if backends.len() > 0 {
        if registered.has(backends[0]) {
            assert(backends[0] == registered.first_of(backends)->0);
        } else {
            let rest = backends.skip(1);
            lemma_first_of(registered, rest);
            match registered.first_of(backends) {
                Some(found) => {
                    let i = choose|i: int|
                        0 <= i < rest.len() && #[trigger] rest[i] == found && registered.has(found)
                            && forall|j: int| 0 <= j < i ==> !registered.has(#[trigger] rest[j]);
                    assert(backends[i + 1] == found);
                    assert forall|j: int| 0 <= j < i + 1 implies !registered.has(
                        #[trigger] backends[j],
                    ) by {
                        if j > 0 {
                            assert(rest[j - 1] == backends[j]);
                        }
                    }
                },
                None => {
                    assert forall|i: int| 0 <= i < backends.len() implies !registered.has(
                        #[trigger] backends[i],
                    ) by {
                        if i > 0 {
                            assert(rest[i - 1] == backends[i]);
                        }
                    }
                },
            }
        }
    }
}

/// An operation goes to a registered backend that serves it, and no other
/// registered one comes before that by priority; it is refused only where
/// none that serves it is registered.
pub proof fn law_route(registered: Registered, operation: Operation)
    ensures
        match routed(registered, operation) {
            Ok(backend) => exists|i: int|
                0 <= i < priority(operation).len() && #[trigger] priority(operation)[i] == backend
                    && registered.has(backend) && forall|j: int|
                    0 <= j < i ==> !registered.has(#[trigger] priority(operation)[j]),
            Err(_) => forall|i: int|
                0 <= i < priority(operation).len() ==> !registered.has(
                    #[trigger] priority(operation)[i],
                ),
        },
{
    lemma_first_of(registered, priority(operation));
}

/// What is stored locally is read and changed before what is remote, and
/// JMAP comes before IMAP; only watching, comparing and sending are for the
/// network alone, and mail is sent over JMAP or else SMTP.
pub proof fn law_local_before_network(registered: Registered, operation: Operation)
    ensures
        ({
            let remote = operation == Operation::DiffEnvelopes || operation == Operation::DiffMailboxes
                || operation == Operation::WatchMailbox || operation == Operation::SendMessage;
            &&& !remote && registered.maildir ==> routed(registered, operation) == Ok::<
                EmailBackend,
                RouteError,
            >(EmailBackend::Maildir)
            &&& !remote && !registered.maildir && registered.m2dir ==> routed(registered, operation)
                == Ok::<EmailBackend, RouteError>(EmailBackend::M2dir)
            &&& registered.jmap && (remote || !registered.maildir && !registered.m2dir) ==> routed(
                registered,
                operation,
            ) == Ok::<EmailBackend, RouteError>(EmailBackend::Jmap)
            &&& routed(registered, operation) == Ok::<EmailBackend, RouteError>(EmailBackend::Imap)
                ==> registered.imap && !registered.jmap && operation != Operation::SendMessage
                && operation != Operation::DiffMailboxes
            &&& registered.imap && !registered.jmap && !registered.maildir && !registered.m2dir
                && operation != Operation::SendMessage && operation != Operation::DiffMailboxes
                ==> routed(registered, operation) == Ok::<EmailBackend, RouteError>(EmailBackend::Imap)
            &&& routed(registered, operation) == Ok::<EmailBackend, RouteError>(EmailBackend::Smtp)
                <==> operation == Operation::SendMessage && registered.smtp && !registered.jmap
            &&& remote && registered.imap && !registered.jmap && (operation == Operation::DiffEnvelopes
                || operation == Operation::WatchMailbox) ==> routed(registered, operation) == Ok::<
                EmailBackend,
                RouteError,
            >(EmailBackend::Imap)
            &&& routed(registered, operation) matches Err(err) ==> (err
                == RouteError::UnsupportedOperation <==> operation == Operation::DiffEnvelopes
                || operation == Operation::DiffMailboxes)
        }),
{
    reveal_with_fuel(Registered::first_of, 5);
    let backends = priority(operation);
    assert(backends.len() <= 4);
    if backends.len() == 4 {
        assert(backends.skip(1) =~= seq![EmailBackend::M2dir, EmailBackend::Jmap, EmailBackend::Imap]);
        assert(backends.skip(1).skip(1) =~= seq![EmailBackend::Jmap, EmailBackend::Imap]);
        assert(backends.skip(1).skip(1).skip(1) =~= seq![EmailBackend::Imap]);
        assert(backends.skip(1).skip(1).skip(1).skip(1) =~= seq![]);
    } else {
        assert(backends.skip(1).len() == backends.len() - 1);
        if backends.len() == 2 {
            assert(backends.skip(1) =~= seq![backends[1]]);
            assert(backends.skip(1).skip(1) =~= seq![]);
        }
    }
}

/// Pinged are just the registered backends that hold a session open, each
/// once.
pub proof fn law_pinged_are_the_sessions(registered: Registered, backend: EmailBackend)
    ensures
        pinged(registered).contains(backend) <==> registered.has(backend) && (backend
            == EmailBackend::Imap || backend == EmailBackend::Smtp),
        pinged(registered).no_duplicates(),
{
    let list = pinged(registered);
    if registered.imap {
        assert(list[0] == EmailBackend::Imap);
        if registered.smtp {
            assert(list[1] == EmailBackend::Smtp);
        }
    } else if registered.smtp {
        assert(list[0] == EmailBackend::Smtp);
    }
}

} // verus!
