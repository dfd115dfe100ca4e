//! Shared helpers of the m2dir coroutines: flags of an entry, and m2dir
//! entry to shared [`Envelope`] conversion.
use vstd::prelude::*;
use vstd::utf8::{decode_utf8, valid_utf8};

use crate::address::{Address, AddressView};
use crate::date::{parse_rfc3339, sent_date};
use crate::envelope::{message_id_of, normalize_message_id, Envelope, EnvelopeView};
use crate::flag::types::{kept, Flag, FlagSet};
use crate::m2dir::wire::{HeaderAddress, HeaderAddressView, Headers, HeadersView};
use crate::text::{read_utf8, split, split_of, trim_of, trimmed};

verus! {

/// The flags on the lines of a flags file: one on each line that is not
/// blank.
pub open spec fn line_flags(lines: Seq<Seq<char>>) -> Set<Seq<char>>
    decreases lines.len(),
{
    if lines.len() == 0 {
        Set::empty()
    } else {
        let before = line_flags(lines.drop_last());
        if trimmed(lines.last()).len() == 0 {
            before
        } else {
            before.insert(kept(trimmed(lines.last())))
        }
    }
}

/// The flags in a flags file; none where it is no text.
pub open spec fn meta_flags(bytes: Seq<u8>) -> Set<Seq<char>> {
    if valid_utf8(bytes) {
        line_flags(split(decode_utf8(bytes), '\n'))
    } else {
        Set::empty()
    }
}

/// Reads a flags file.
pub fn parse_meta_flags(bytes: &[u8]) -> (r: FlagSet)
    ensures
        r@ == meta_flags(bytes@),
{
    let mut flags = FlagSet::new();
    let text = match read_utf8(bytes) {
        Some(text) => text,
        None => return flags,
    };
    let lines = split_of(text.as_str(), '\n');
    let ghost all = lines.deep_view();
    proof {
        assert(all.take(0) =~= seq![]);
    }
    let mut i: usize = 0;
    while i < lines.len()
        invariant
            i <= lines@.len(),
            all == lines.deep_view(),
            flags@ == line_flags(all.take(i as int)),
        decreases lines@.len() - i,
    {
        proof {
            assert(all.take(i + 1).drop_last() =~= all.take(i as int));
            assert(all.take(i + 1).last() == lines@[i as int]@);
        }
        let line = trim_of(lines[i].as_str());
        if !line.as_str().is_empty() {
            flags.insert(Flag::from_raw(line.as_str()));
        }
        i = i + 1;
    }
    proof {
        assert(all.take(all.len() as int) =~= all);
    }
    flags
}

/// The shared address of one in a header; without an address it is empty.
pub open spec fn address_of(address: HeaderAddressView) -> AddressView {
    AddressView {
        name: address.name,
        email: match address.address {
            Some(email) => email,
            None => seq![],
        },
    }
}

/// The shared addresses of those in a header.
pub open spec fn addresses_of(list: Seq<HeaderAddressView>) -> Seq<AddressView> {
    list.map_values(|address: HeaderAddressView| address_of(address))
}

fn addresses_from(list: &Vec<HeaderAddress>) -> (r: Vec<Address>)
    ensures
        r.deep_view() == addresses_of(list.deep_view()),
{
    let mut out: Vec<Address> = Vec::new();
    let mut i: usize = 0;
    while i < list.len()
        invariant
            i <= list@.len(),
            out@.len() == i,
            forall|j: int|
                0 <= j < i ==> (#[trigger] out@[j]).deep_view() == address_of(list@[j].deep_view()),
        decreases list@.len() - i,
    {
        let name = match &list[i].name {
            Some(name) => Some(name.clone()),
            None => None,
        };
        let email = match &list[i].address {
            Some(email) => email.clone(),
            None => String::new(),
        };
        proof {
            assert(email@ =~= address_of(list@[i as int].deep_view()).email);
        }
        out.push(Address { name, email });
        i = i + 1;
    }
    proof {
        assert(out.deep_view() =~= addresses_of(list.deep_view()));
    }
    out
}

/// The envelope of an entry of `size` bytes, with its flags and what was
/// read of the message. Attachments count where `with_attachment`.
pub open spec fn envelope_of(
    id: Seq<char>,
    flags: Set<Seq<char>>,
    headers: HeadersView,
    size: nat,
    with_attachment: bool,
) -> EnvelopeView {
    EnvelopeView {
        id,
        message_id: match headers.message_id {
            Some(raw) => message_id_of(raw),
            None => None,
        },
        flags,
        subject: match headers.subject {
            Some(subject) => subject,
            None => seq![],
        },
        from: addresses_of(headers.from),
        to: addresses_of(headers.to),
        date: match headers.date {
            Some(text) => sent_date(text),
            None => None,
        },
        size,
        has_attachment: if with_attachment {
            Some(headers.attachments > 0)
        } else {
            None
        },
    }
}

/// Folds an entry into the shared [`Envelope`] shape.
pub fn envelope_from(id: &str, flags: FlagSet, headers: &Headers, size: usize, with_attachment: bool) -> (r:
    Envelope)
    ensures
        r.deep_view() == envelope_of(
            id@,
            flags@,
            headers.deep_view(),
            size as nat,
            with_attachment,
        ),
{
    let message_id = match &headers.message_id {
        Some(raw) => normalize_message_id(raw.as_str()),
        None => None,
    };
    let subject = match &headers.subject {
        Some(subject) => subject.clone(),
        None => String::new(),
    };
    proof {
        assert(subject@ =~= (match headers.deep_view().subject {
            Some(subject) => subject,
            None => seq![],
        }));
    }
    let date = match &headers.date {
        Some(text) => parse_rfc3339(text.as_str()),
        None => None,
    };
    let has_attachment = if with_attachment {
        Some(headers.attachments > 0)
    } else {
        None
    };
    Envelope {
        id: id.to_owned(),
        message_id,
        flags,
        subject,
        from: addresses_from(&headers.from),
        to: addresses_from(&headers.to),
        date,
        size: size as u64,
        has_attachment,
    }
}

/// A flag is in a flags file exactly when some line of it, without the white
/// space around, is a spelling of it; blank lines give none.
pub proof fn law_flags_are_on_the_lines(lines: Seq<Seq<char>>, flag: Seq<char>)
    ensures
        line_flags(lines).contains(flag) <==> exists|i: int|
            0 <= i < lines.len() && trimmed(#[trigger] lines[i]).len() > 0 && kept(trimmed(lines[i]))
                == flag,
    decreases lines.len(),
{
    if lines.len() > 0 {
        let most = lines.drop_last();
        law_flags_are_on_the_lines(most, flag);
        assert(lines[lines.len() - 1] == lines.last());
        if line_flags(most).contains(flag) {
            let i = choose|i: int|
                0 <= i < most.len() && trimmed(#[trigger] most[i]).len() > 0 && kept(trimmed(most[i]))
                    == flag;
            assert(lines[i] == most[i]);
        }
        if exists|i: int|
            0 <= i < lines.len() && trimmed(#[trigger] lines[i]).len() > 0 && kept(trimmed(lines[i])) == flag {
            let i = choose|i: int|
                0 <= i < lines.len() && trimmed(#[trigger] lines[i]).len() > 0 && kept(trimmed(lines[i]))
                    == flag;
            if i < most.len() {
                assert(most[i] == lines[i]);
            }
        }
    }
}

/// The flags of a file that is text are those on its lines, which end at
/// line feeds; a file that is none has no flags.
pub proof fn law_flags_file(bytes: Seq<u8>, flag: Seq<char>)
    ensures
        meta_flags(bytes).contains(flag) <==> valid_utf8(bytes) && exists|i: int|
            0 <= i < split(decode_utf8(bytes), '\n').len() && trimmed(
                #[trigger] split(decode_utf8(bytes), '\n')[i],
            ).len() > 0 && kept(trimmed(split(decode_utf8(bytes), '\n')[i])) == flag,
{
    law_flags_are_on_the_lines(split(decode_utf8(bytes), '\n'), flag);
}

/// An envelope says of its message what was read of it: senders stay senders
/// and recipients recipients, each in its place; attachments are told only
/// where they were asked for.
pub proof fn law_envelope_says_what_was_read(
    id: Seq<char>,
    flags: Set<Seq<char>>,
    headers: HeadersView,
    size: nat,
    with_attachment: bool,
)
    ensures
        ({
            let e = envelope_of(id, flags, headers, size, with_attachment);
            &&& e.id == id && e.flags == flags && e.size == size
            &&& headers.subject matches Some(subject) ==> e.subject == subject
            &&& headers.subject is None ==> e.subject.len() == 0
            &&& headers.message_id matches Some(raw) ==> e.message_id == message_id_of(raw)
            &&& headers.message_id is None ==> e.message_id is None
            &&& headers.date matches Some(text) ==> e.date == sent_date(text)
            &&& headers.date is None ==> e.date is None
            &&& e.has_attachment is Some <==> with_attachment
            &&& e.has_attachment matches Some(has) ==> (has <==> headers.attachments > 0)
            &&& e.from.len() == headers.from.len() && e.to.len() == headers.to.len()
            &&& forall|i: int|
                0 <= i < headers.from.len() ==> (#[trigger] e.from[i]).name == headers.from[i].name
                    && e.from[i].email == (match headers.from[i].address {
                    Some(email) => email,
                    None => seq![],
                })
            &&& forall|i: int|
                0 <= i < headers.to.len() ==> (#[trigger] e.to[i]).name == headers.to[i].name
                    && e.to[i].email == (match headers.to[i].address {
                    Some(email) => email,
                    None => seq![],
                })
        }),
{
}

} // verus!
