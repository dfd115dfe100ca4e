//! URLs that blobs are uploaded to and downloaded from, out of the
//! templates of a session (RFC 8620 section 2).
use vstd::prelude::*;

use io_jmap::rfc8620::session::JmapSession;
use url::Url;

use crate::jmap::convert::{account_id, account_id_of};
use crate::jmap::wire::{parse_url, read_session, session_info, url_of};
use crate::text::{replace_of, replaced, starts};

verus! {

/// The upload URL of a session, for its primary mail account.
pub open spec fn upload_url(session: JmapSession) -> Seq<char> {
    replaced(session_info(session).upload_url, "{accountId}"@, account_id(session))
}

/// Upload URL of the session; the URL as text where it is not valid.
pub fn resolve_upload_url(session: &JmapSession) -> (r: Result<Url, String>)
    ensures
        match r {
            Ok(url) => url_of(upload_url(*session)) == Some(url),
            Err(text) => url_of(upload_url(*session)) is None && text@ == upload_url(*session),
        },
{
    let account = account_id_of(session);
    let info = read_session(session);
    proof {
        reveal_strlit("{accountId}");
    }
    let text = replace_of(info.upload_url.as_str(), "{accountId}", account.as_str());
    match parse_url(text.as_str()) {
        Some(url) => Ok(url),
        None => Err(text),
    }
}

/// A download URL template filled in for a message.
pub open spec fn download_url(template: Seq<char>, account: Seq<char>, blob: Seq<char>) -> Seq<char> {
    let with_account = replaced(template, "{accountId}"@, account);
    let with_blob = replaced(with_account, "{blobId}"@, blob);
    let with_type = replaced(with_blob, "{type}"@, "message%2Frfc822"@);
    replaced(with_type, "{name}"@, "message.eml"@)
}

/// Fills in the download URL template for a message.
pub fn resolve_download_url(template: &str, account_id: &str, blob_id: &str) -> (r: String)
    ensures
        r@ == download_url(template@, account_id@, blob_id@),
{
    proof {
        reveal_strlit("{accountId}");
        reveal_strlit("{blobId}");
        reveal_strlit("{type}");
        reveal_strlit("{name}");
    }
    let with_account = replace_of(template, "{accountId}", account_id);
    let with_blob = replace_of(with_account.as_str(), "{blobId}", blob_id);
    let with_type = replace_of(with_blob.as_str(), "{type}", "message%2Frfc822");
    replace_of(with_type.as_str(), "{name}", "message.eml")
}

/// A piece of a URL template: text, or the place of a value.
pub enum Piece {
    Text(Seq<char>),
    AccountId,
    BlobId,
    MediaType,
    FileName,
}

impl Piece {
    /// The piece as it stands in a template.
    pub open spec fn written(self) -> Seq<char> {
        match self {
            Piece::Text(text) => text,
            Piece::AccountId => "{accountId}"@,
            Piece::BlobId => "{blobId}"@,
            Piece::MediaType => "{type}"@,
            Piece::FileName => "{name}"@,
        }
    }

    /// The piece with the value in its place.
    pub open spec fn filled(self, account: Seq<char>, blob: Seq<char>) -> Seq<char> {
        match self {
            Piece::Text(text) => text,
            Piece::AccountId => account,
            Piece::BlobId => blob,
            Piece::MediaType => "message%2Frfc822"@,
            Piece::FileName => "message.eml"@,
        }
    }

    /// The piece, with a value where it is one place.
    pub open spec fn given(self, place: Piece, value: Seq<char>) -> Piece {
        if self == place {
            Piece::Text(value)
        } else {
            self
        }
    }

    /// Whether a text piece opens no place.
    pub open spec fn plain(self) -> bool {
        self matches Piece::Text(text) ==> !text.contains('{')
    }
}

/// Pieces, with a value wherever one is a place.
pub open spec fn all_given(pieces: Seq<Piece>, place: Piece, value: Seq<char>) -> Seq<Piece> {
    pieces.map_values(|piece: Piece| piece.given(place, value))
}

/// A template out of its pieces.
pub open spec fn template_of(pieces: Seq<Piece>) -> Seq<char>
    decreases pieces.len(),
{
    if pieces.len() == 0 {
        seq![]
    } else {
        pieces[0].written() + template_of(pieces.skip(1))
    }
}

/// The same pieces with the values in their places.
pub open spec fn url_out_of(pieces: Seq<Piece>, account: Seq<char>, blob: Seq<char>) -> Seq<char>
    decreases pieces.len(),
{
    if pieces.len() == 0 {
        seq![]
    } else {
        pieces[0].filled(account, blob) + url_out_of(pieces.skip(1), account, blob)
    }
}

proof fn lemma_passed_over(text: Seq<char>, rest: Seq<char>, pattern: Seq<char>, with: Seq<char>)
    requires
        !text.contains('{'),
        pattern.len() > 0,
        pattern[0] == '{',
    ensures
        replaced(text + rest, pattern, with) == text + replaced(rest, pattern, with),
    decreases text.len(),
{
    if text.len() == 0 {
        assert(text + rest =~= rest);
        assert(text + replaced(rest, pattern, with) =~= replaced(rest, pattern, with));
    } else {
        let all = text + rest;
        assert(all[0] == text[0]);
        assert(text.contains(text[0]));
        assert(!starts(all, pattern)) by {
            if starts(all, pattern) {
                assert(all.take(pattern.len() as int)[0] == pattern[0]);
            }
        }
        let more = text.skip(1);
        assert(!more.contains('{')) by {
            if more.contains('{') {
                let i = more.index_of('{');
                assert(text[i + 1] == '{');
            }
        }
        lemma_passed_over(more, rest, pattern, with);
        assert(all.skip(1) =~= more + rest);
        assert(seq![text[0]] + (more + replaced(rest, pattern, with)) =~= text + replaced(
            rest,
            pattern,
            with,
        ));
    }
}

proof fn lemma_places(place: Piece)
    requires
        !(place is Text),
    ensures
        place.written().len() > 1,
        place.written()[0] == '{',
        !place.written().skip(1).contains('{'),
        place.written()[1] == match place {
            Piece::AccountId => 'a',
            Piece::BlobId => 'b',
            Piece::MediaType => 't',
            _ => 'n',
        },
{
    reveal_strlit("{accountId}");
    reveal_strlit("{blobId}");
    reveal_strlit("{type}");
    reveal_strlit("{name}");
    let rest = place.written().skip(1);
    assert forall|i: int| 0 <= i < rest.len() implies rest[i] != '{' by {
        assert(rest[i] == place.written()[i + 1]);
    }
}

proof fn lemma_place_given(pieces: Seq<Piece>, place: Piece, value: Seq<char>)
    requires
        !(place is Text),
        !value.contains('{'),
        forall|i: int| 0 <= i < pieces.len() ==> (#[trigger] pieces[i]).plain(),
    ensures
        replaced(template_of(pieces), place.written(), value) == template_of(
            all_given(pieces, place, value),
        ),
        forall|i: int| 0 <= i < pieces.len() ==> (#[trigger] all_given(pieces, place, value)[i]).plain(),
    decreases pieces.len(),
{
    let pattern = place.written();
    let after = all_given(pieces, place, value);
    lemma_places(place);
    if pieces.len() > 0 {
        let rest = pieces.skip(1);
        assert forall|i: int| 0 <= i < rest.len() implies (#[trigger] rest[i]).plain() by {
            assert(rest[i] == pieces[i + 1]);
        }
        lemma_place_given(rest, place, value);
        assert(after.skip(1) =~= all_given(rest, place, value));
        let piece = pieces[0];
        assert(piece.plain());
        let tail = template_of(rest);
        if let Piece::Text(text) = piece {
            lemma_passed_over(text, tail, pattern, value);
        } else if piece == place {
            let all = pattern + tail;
            assert(all.take(pattern.len() as int) =~= pattern);
            assert(starts(all, pattern));
            assert(all.skip(pattern.len() as int) =~= tail);
        } else {
            lemma_places(piece);
            let own = piece.written();
            let all = own + tail;
            assert(!starts(all, pattern)) by {
                if starts(all, pattern) {
                    assert(all.take(pattern.len() as int)[1] == pattern[1]);
                    assert(all[1] == own[1]);
                }
            }
            lemma_passed_over(own.skip(1), tail, pattern, value);
            assert(all.skip(1) =~= own.skip(1) + tail);
            assert(seq![all[0]] + (own.skip(1) + replaced(tail, pattern, value)) =~= own + replaced(
                tail,
                pattern,
                value,
            ));
        }
    }
}

proof fn lemma_filled(pieces: Seq<Piece>, done: Seq<Piece>, account: Seq<char>, blob: Seq<char>)
    requires
        done.len() == pieces.len(),
        forall|i: int|
            0 <= i < done.len() ==> (#[trigger] done[i]).written() == pieces[i].filled(account, blob),
    ensures
        template_of(done) == url_out_of(pieces, account, blob),
    decreases pieces.len(),
{
    if pieces.len() > 0 {
        let rest = done.skip(1);
        assert forall|i: int| 0 <= i < rest.len() implies (#[trigger] rest[i]).written()
            == pieces.skip(1)[i].filled(account, blob) by {
            assert(rest[i] == done[i + 1]);
        }
        lemma_filled(pieces.skip(1), rest, account, blob);
        assert(done[0].written() == pieces[0].filled(account, blob));
    }
}

/// A download URL is its template with every place filled, in whatever order
/// the places come: the account, the blob, the media type of a message and a
/// file name; all else stays as it is.
pub proof fn law_every_place_is_filled(pieces: Seq<Piece>, account: Seq<char>, blob: Seq<char>)
    requires
        forall|i: int| 0 <= i < pieces.len() ==> (#[trigger] pieces[i]).plain(),
        !account.contains('{'),
        !blob.contains('{'),
    ensures
        download_url(template_of(pieces), account, blob) == url_out_of(pieces, account, blob),
{
    reveal_strlit("message%2Frfc822");
    reveal_strlit("message.eml");
    let kind = "message%2Frfc822"@;
    let name = "message.eml"@;
    assert forall|i: int| 0 <= i < kind.len() implies kind[i] != '{' by {}
    assert forall|i: int| 0 <= i < name.len() implies name[i] != '{' by {}
    let first = all_given(pieces, Piece::AccountId, account);
    lemma_place_given(pieces, Piece::AccountId, account);
    let second = all_given(first, Piece::BlobId, blob);
    lemma_place_given(first, Piece::BlobId, blob);
    let third = all_given(second, Piece::MediaType, kind);
    lemma_place_given(second, Piece::MediaType, kind);
    let fourth = all_given(third, Piece::FileName, name);
    lemma_place_given(third, Piece::FileName, name);
    lemma_filled(pieces, fourth, account, blob);
}

/// An upload URL is its template with the account in every place for it.
pub proof fn law_upload_names_the_account(session: JmapSession, pieces: Seq<Piece>, blob: Seq<char>)
    requires
        session_info(session).upload_url == template_of(pieces),
        forall|i: int|
            0 <= i < pieces.len() ==> (#[trigger] pieces[i]).plain() && (pieces[i] is Text
                || pieces[i] is AccountId),
        !account_id(session).contains('{'),
    ensures
        upload_url(session) == url_out_of(pieces, account_id(session), blob),
{
    let account = account_id(session);
    lemma_place_given(pieces, Piece::AccountId, account);
    let done = all_given(pieces, Piece::AccountId, account);
    lemma_filled(pieces, done, account, blob);
}

} // verus!
