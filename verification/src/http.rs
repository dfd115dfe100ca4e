//! The framing of an HTTP/1.1 reply (RFC 9112 section 7.1), followed beside
//! the exchange that reads it.
//!
//! `io_http` adds the line end to the size of a chunk without looking
//! whether the sum can be held. A reply is scanned for such a size before the
//! exchange sees it, and refused.
use vstd::prelude::*;

use io_http::coroutine::{HttpCoroutine, HttpCoroutineState};
use io_http::rfc9110::headers::HTTP_TRANSFER_ENCODING;
use io_http::rfc9112::read_headers::Http11HeadersRead;

use crate::coroutine::{fed, EmailCoroutineState, Outcome};
use crate::text::{ascii_lower, ascii_lower_of, same_text};

verus! {

/// The text of a chunk size as far as it was read.
#[derive(Clone, Copy, Debug, PartialEq, Eq, Structural)]
pub enum SizeText {
    /// White space only.
    Blank,
    /// A plus sign.
    Plus,
    /// Hexadecimal digits and the number they make.
    Digits(usize),
    /// White space behind digits.
    Trailed(usize),
    /// Not a number, or one that cannot be held.
    Invalid,
}

/// Whether a byte is ASCII white space.
pub open spec fn blank(b: u8) -> bool {
    b == 9 || b == 10 || b == 12 || b == 13 || b == 32
}

/// The value of a hexadecimal digit.
pub open spec fn hex_digit(b: u8) -> Option<usize> {
    if 48 <= b <= 57 {
        Some((b - 48) as usize)
    } else if 65 <= b <= 70 {
        Some((b - 55) as usize)
    } else if 97 <= b <= 102 {
        Some((b - 87) as usize)
    } else {
        None
    }
}

impl SizeText {
    /// The text with one more byte.
    pub open spec fn next(self, b: u8) -> SizeText {
        match self {
            SizeText::Blank => if blank(b) {
                SizeText::Blank
            } else if b == 43 {
                SizeText::Plus
            } else {
                match hex_digit(b) {
                    Some(d) => SizeText::Digits(d),
                    None => SizeText::Invalid,
                }
            },
            SizeText::Plus => match hex_digit(b) {
                Some(d) => SizeText::Digits(d),
                None => SizeText::Invalid,
            },
            SizeText::Digits(n) => match hex_digit(b) {
                Some(d) => if n * 16 + d <= usize::MAX {
                    SizeText::Digits((n * 16 + d) as usize)
                } else {
                    SizeText::Invalid
                },
                None => if blank(b) {
                    SizeText::Trailed(n)
                } else {
                    SizeText::Invalid
                },
            },
            SizeText::Trailed(n) => if blank(b) {
                SizeText::Trailed(n)
            } else {
                SizeText::Invalid
            },
            SizeText::Invalid => SizeText::Invalid,
        }
    }

    fn read(self, b: u8) -> (r: SizeText)
        ensures
            r == self.next(b),
    {
        let digit: Option<usize> = if 48 <= b && b <= 57 {
            Some((b - 48) as usize)
        } else if 65 <= b && b <= 70 {
            Some((b - 55) as usize)
        } else if 97 <= b && b <= 102 {
            Some((b - 87) as usize)
        } else {
            None
        };
        let space = b == 9 || b == 10 || b == 12 || b == 13 || b == 32;
        match self {
            SizeText::Blank => if space {
                SizeText::Blank
            } else if b == 43 {
                SizeText::Plus
            } else {
                match digit {
                    Some(d) => SizeText::Digits(d),
                    None => SizeText::Invalid,
                }
            },
            SizeText::Plus => match digit {
                Some(d) => SizeText::Digits(d),
                None => SizeText::Invalid,
            },
            SizeText::Digits(n) => match digit {
                Some(d) => if n <= (usize::MAX - d) / 16 {
                    SizeText::Digits(n * 16 + d)
                } else {
                    SizeText::Invalid
                },
                None => if space {
                    SizeText::Trailed(n)
                } else {
                    SizeText::Invalid
                },
            },
            SizeText::Trailed(n) => if space {
                SizeText::Trailed(n)
            } else {
                SizeText::Invalid
            },
            SizeText::Invalid => SizeText::Invalid,
        }
    }
}

/// Where the scan of a chunked body stands.
#[derive(Clone, Copy, Debug, PartialEq, Eq, Structural)]
pub enum ChunkScan {
    /// In the line of a size; `extension` once past a semicolon, `cr` right
    /// behind a carriage return.
    Size { text: SizeText, extension: bool, cr: bool },
    /// In the data of a chunk, which ends with two more bytes; `left` bytes
    /// of all that are to come.
    Data { left: usize, last: bool },
    /// Behind the last chunk, or behind a size that is not valid: no more
    /// sizes are read.
    Over,
    /// Behind a size that leaves no room for the line end.
    Oversized,
}

impl ChunkScan {
    /// The beginning of a body.
    pub open spec fn start() -> ChunkScan {
        ChunkScan::Size { text: SizeText::Blank, extension: false, cr: false }
    }

    /// What follows the line of a size.
    pub open spec fn sized(text: SizeText) -> ChunkScan {
        match text {
            SizeText::Digits(n) | SizeText::Trailed(n) => if n > usize::MAX - 2 {
                ChunkScan::Oversized
            } else {
                ChunkScan::Data { left: (n + 2) as usize, last: n == 0 }
            },
            _ => ChunkScan::Over,
        }
    }

    /// The scan with one more byte.
    pub open spec fn next(self, b: u8) -> ChunkScan {
        match self {
            ChunkScan::Size { text, extension, cr } => if cr && b == 10 {
                ChunkScan::sized(text)
            } else if extension || b == 59 {
                ChunkScan::Size { text, extension: true, cr: b == 13 }
            } else {
                ChunkScan::Size { text: text.next(b), extension: false, cr: b == 13 }
            },
            ChunkScan::Data { left, last } => if left > 1 {
                ChunkScan::Data { left: (left - 1) as usize, last }
            } else if last {
                ChunkScan::Over
            } else {
                ChunkScan::start()
            },
            end => end,
        }
    }

    /// The scan with more bytes.
    pub open spec fn run(self, bytes: Seq<u8>) -> ChunkScan
        decreases bytes.len(),
    {
        if bytes.len() == 0 {
            self
        } else {
            self.run(bytes.drop_last()).next(bytes.last())
        }
    }

    fn read(self, b: u8) -> (r: ChunkScan)
        ensures
            r == self.next(b),
    {
        match self {
            ChunkScan::Size { text, extension, cr } => if cr && b == 10 {
                match text {
                    SizeText::Digits(n) | SizeText::Trailed(n) => if n > usize::MAX - 2 {
                        ChunkScan::Oversized
                    } else {
                        ChunkScan::Data { left: n + 2, last: n == 0 }
                    },
                    _ => ChunkScan::Over,
                }
            } else if extension || b == 59 {
                ChunkScan::Size { text, extension: true, cr: b == 13 }
            } else {
                ChunkScan::Size { text: text.read(b), extension: false, cr: b == 13 }
            },
            ChunkScan::Data { left, last } => if left > 1 {
                ChunkScan::Data { left: left - 1, last }
            } else if last {
                ChunkScan::Over
            } else {
                ChunkScan::Size { text: SizeText::Blank, extension: false, cr: false }
            },
            end => end,
        }
    }

    /// Scans more bytes.
    pub fn scan(self, bytes: &[u8]) -> (r: ChunkScan)
        ensures
            r == self.run(bytes@),
    {
        let mut at = self;
        proof {
            assert(bytes@.take(0) =~= seq![]);
        }
        let mut i: usize = 0;
        while i < bytes.len()
            invariant
                i <= bytes@.len(),
                at == self.run(bytes@.take(i as int)),
            decreases bytes@.len() - i,
        {
            proof {
                assert(bytes@.take(i + 1).drop_last() =~= bytes@.take(i as int));
                assert(bytes@.take(i + 1).last() == bytes@[i as int]);
            }
            at = at.read(bytes[i]);
            i = i + 1;
        }
        proof {
            assert(bytes@.take(bytes@.len() as int) =~= bytes@);
        }
        at
    }
}

/// What is read of the head of a reply.
#[derive(Debug)]
pub struct ReplyHead {
    pub status: u16,
    pub version: String,
    /// The first `Transfer-Encoding:` header.
    pub encoding: Option<String>,
    /// What was read behind the head.
    pub rest: Vec<u8>,
}

/// What a [`ReplyHead`] says.
pub struct ReplyHeadView {
    pub status: u16,
    pub version: Seq<char>,
    pub encoding: Option<Seq<char>>,
    pub rest: Seq<u8>,
}

impl DeepView for ReplyHead {
    type V = ReplyHeadView;

    open spec fn deep_view(&self) -> ReplyHeadView {
        ReplyHeadView {
            status: self.status,
            version: self.version@,
            encoding: self.encoding.deep_view(),
            rest: self.rest@,
        }
    }
}

impl ReplyHeadView {
    /// Whether the body comes in chunks; of a streamed reply wherever it is a
    /// success, of another one where it has a body and is not of HTTP/1.0.
    pub open spec fn chunked(self, streamed: bool) -> bool {
        &&& self.encoding matches Some(encoding) && ascii_lower(encoding) == "chunked"@
        &&& if streamed {
            200 <= self.status < 300
        } else {
            self.status != 204 && self.status != 304 && self.version != "HTTP/1.0"@
        }
    }
}

impl ReplyHead {
    fn is_chunked(&self, streamed: bool) -> (r: bool)
        ensures
            r == self.deep_view().chunked(streamed),
    {
        let declared = match &self.encoding {
            Some(encoding) => same_text(ascii_lower_of(encoding.as_str()).as_str(), "chunked"),
            None => false,
        };
        declared && if streamed {
            200 <= self.status && self.status < 300
        } else {
            self.status != 204 && self.status != 304 && !same_text(self.version.as_str(), "HTTP/1.0")
        }
    }
}

/// What more bytes of a head come to.
#[derive(Debug)]
pub enum HeadStep {
    /// The head is not complete.
    Waits,
    Failed,
    Done(ReplyHead),
}

/// What a [`HeadStep`] says.
pub enum HeadStepView {
    Waits,
    Failed,
    Done(ReplyHeadView),
}

impl DeepView for HeadStep {
    type V = HeadStepView;

    open spec fn deep_view(&self) -> HeadStepView {
        match self {
            HeadStep::Waits => HeadStepView::Waits,
            HeadStep::Failed => HeadStepView::Failed,
            HeadStep::Done(head) => HeadStepView::Done(head.deep_view()),
        }
    }
}

/// The reader of a head of `io_http`.
#[verifier::external_type_specification]
#[verifier::external_body]
pub struct ExHttp11HeadersRead(Http11HeadersRead);

/// The bytes that a reader holds.
pub uninterp spec fn head_held(head: Http11HeadersRead) -> Seq<u8>;

/// The reader that holds these bytes.
pub uninterp spec fn head_of(bytes: Seq<u8>) -> Http11HeadersRead;

/// What all the bytes of a reply so far come to.
pub uninterp spec fn head_read(bytes: Seq<u8>) -> HeadStepView;

/// [`Http11HeadersRead::default`]: a reader that holds nothing.
#[verifier::external_body]
fn head_new() -> (r: Http11HeadersRead)
    ensures
        r == head_of(Seq::empty()),
        head_held(r) == Seq::<u8>::empty(),
{
    Http11HeadersRead::default()
}

/// [`Http11HeadersRead`]'s `resume` with bytes: it reads them together with
/// those it holds, no bytes at all being the end of the stream. Of the head
/// it reads the status, the version, the `Transfer-Encoding:` and what stands
/// behind it.
#[verifier::external_body]
fn head_resume(head: &mut Http11HeadersRead, bytes: &[u8]) -> (r: HeadStep)
    ensures
        bytes@.len() == 0 ==> r is Failed,
        bytes@.len() > 0 ==> r.deep_view() == head_read(head_held(*old(head)) + bytes@),
        r is Waits ==> *final(head) == head_of(head_held(*old(head)) + bytes@),
        r is Waits ==> head_held(*final(head)) == head_held(*old(head)) + bytes@,
{
    match head.resume(Some(bytes)) {
        HttpCoroutineState::Yielded(_) => HeadStep::Waits,
        HttpCoroutineState::Complete(Err(_)) => HeadStep::Failed,
        HttpCoroutineState::Complete(Ok(out)) => HeadStep::Done(ReplyHead {
            status: *out.response.status,
            encoding: out.response.header(HTTP_TRANSFER_ENCODING).map(String::from),
            version: out.response.version,
            rest: out.remaining,
        }),
    }
}

/// What more bytes come to.
pub open spec fn head_step(head: Http11HeadersRead, bytes: Seq<u8>) -> HeadStepView {
    if bytes.len() == 0 {
        HeadStepView::Failed
    } else {
        head_read(head_held(head) + bytes)
    }
}

/// Where the reply to a request stands.
pub enum Framing {
    /// The request is still to be written; bytes read before are not looked
    /// at.
    Unsent { streamed: bool },
    Head { head: Http11HeadersRead, streamed: bool },
    Chunks(ChunkScan),
    /// No chunks are read.
    Plain,
}

impl Framing {
    /// The framing after a step.
    pub open spec fn after(self, bytes: Option<Seq<u8>>) -> Framing {
        match self {
            Framing::Unsent { streamed } => Framing::Head { head: head_of(Seq::empty()), streamed },
            Framing::Head { head, streamed } => match bytes {
                Some(bytes) => match head_step(head, bytes) {
                    HeadStepView::Waits => Framing::Head {
                        head: head_of(head_held(head) + bytes),
                        streamed,
                    },
                    HeadStepView::Failed => Framing::Plain,
                    HeadStepView::Done(reply) => if reply.chunked(streamed) {
                        Framing::Chunks(ChunkScan::start().run(reply.rest))
                    } else {
                        Framing::Plain
                    },
                },
                None => self,
            },
            Framing::Chunks(scan) => match bytes {
                Some(bytes) => Framing::Chunks(scan.run(bytes)),
                None => self,
            },
            Framing::Plain => self,
        }
    }

    /// Whether a chunk was announced that leaves no room for the line end.
    pub open spec fn oversized(self) -> bool {
        self matches Framing::Chunks(scan) && scan is Oversized
    }

    /// Follows a step.
    pub fn advance(self, bytes: Option<&[u8]>) -> (r: Framing)
        ensures
            r == self.after(fed(bytes)),
    {
        match self {
            Framing::Unsent { streamed } => Framing::Head { head: head_new(), streamed },
            Framing::Head { mut head, streamed } => match bytes {
                Some(bytes) => match head_resume(&mut head, bytes) {
                    HeadStep::Waits => Framing::Head { head, streamed },
                    HeadStep::Failed => Framing::Plain,
                    HeadStep::Done(reply) => if reply.is_chunked(streamed) {
                        let start = ChunkScan::Size {
                            text: SizeText::Blank,
                            extension: false,
                            cr: false,
                        };
                        Framing::Chunks(start.scan(reply.rest.as_slice()))
                    } else {
                        Framing::Plain
                    },
                },
                None => Framing::Head { head, streamed },
            },
            Framing::Chunks(scan) => match bytes {
                Some(bytes) => Framing::Chunks(scan.scan(bytes)),
                None => Framing::Chunks(scan),
            },
            Framing::Plain => Framing::Plain,
        }
    }

    /// Whether a chunk was announced that leaves no room for the line end.
    pub fn is_oversized(&self) -> (r: bool)
        ensures
            r == self.oversized(),
    {
        match self {
            Framing::Chunks(ChunkScan::Oversized) => true,
            _ => false,
        }
    }
}

/// Why an exchange over HTTP failed.
#[derive(Debug)]
pub enum HttpFault<E> {
    Exchange(E),
    /// The reply announces a chunk that leaves no room for the line end.
    ChunkSize,
}

/// An exchange over HTTP, and the framing of its reply so far.
pub struct Guarded<X> {
    pub exchange: X,
    pub framing: Framing,
}

/// The exchange and the framing after a step, where `next` is the exchange
/// after it; one whose reply is refused does not take the step.
pub open spec fn guarded_left<X>(guarded: Guarded<X>, bytes: Option<Seq<u8>>, next: X) -> Guarded<X> {
    let framing = guarded.framing.after(bytes);
    if framing.oversized() {
        Guarded { exchange: guarded.exchange, framing }
    } else {
        Guarded { exchange: next, framing }
    }
}

/// What a step comes to, where the exchange itself comes to `outcome`.
pub open spec fn guarded_step<T, E>(
    framing: Framing,
    bytes: Option<Seq<u8>>,
    outcome: Outcome<T, E>,
) -> Outcome<T, HttpFault<E>> {
    if framing.after(bytes).oversized() {
        Outcome::Failed(HttpFault::ChunkSize)
    } else {
        match outcome {
            Outcome::Read => Outcome::Read,
            Outcome::Write(out) => Outcome::Write(out),
            Outcome::Done(value) => Outcome::Done(value),
            Outcome::Failed(err) => Outcome::Failed(HttpFault::Exchange(err)),
        }
    }
}

/// An exchange that was built, or why it was not.
pub open spec fn guarded_built<X, E>(made: Result<X, E>, streamed: bool) -> Result<
    Guarded<X>,
    HttpFault<E>,
> {
    match made {
        Ok(exchange) => Ok(Guarded { exchange, framing: Framing::Unsent { streamed } }),
        Err(err) => Err(HttpFault::Exchange(err)),
    }
}

impl<X> Guarded<X> {
    /// Follows a step; false where the reply is refused.
    pub(crate) fn admits(&mut self, bytes: Option<&[u8]>) -> (r: bool)
        ensures
            final(self).exchange == old(self).exchange,
            final(self).framing == old(self).framing.after(fed(bytes)),
            r == !final(self).framing.oversized(),
    {
        let mut framing = Framing::Plain;
        core::mem::swap(&mut self.framing, &mut framing);
        self.framing = framing.advance(bytes);
        !self.framing.is_oversized()
    }
}

/// The same step with its failure as one of the exchange.
pub(crate) fn faulted<Y, T, E>(step: EmailCoroutineState<Y, Result<T, E>>) -> (r: EmailCoroutineState<
    Y,
    Result<T, HttpFault<E>>,
>)
    ensures
        match step {
            EmailCoroutineState::Yielded(io) => r == EmailCoroutineState::<
                Y,
                Result<T, HttpFault<E>>,
            >::Yielded(io),
            EmailCoroutineState::Complete(Ok(value)) => r == EmailCoroutineState::<
                Y,
                Result<T, HttpFault<E>>,
            >::Complete(Ok(value)),
            EmailCoroutineState::Complete(Err(err)) => r == EmailCoroutineState::<
                Y,
                Result<T, HttpFault<E>>,
            >::Complete(Err(HttpFault::Exchange(err))),
        },
{
    match step {
        EmailCoroutineState::Yielded(io) => EmailCoroutineState::Yielded(io),
        EmailCoroutineState::Complete(Ok(value)) => EmailCoroutineState::Complete(Ok(value)),
        EmailCoroutineState::Complete(Err(err)) => EmailCoroutineState::Complete(
            Err(HttpFault::Exchange(err)),
        ),
    }
}

/// The same exchange at its beginning.
pub(crate) fn guard<X, E>(made: Result<X, E>, streamed: bool) -> (r: Result<Guarded<X>, HttpFault<E>>)
    ensures
        r == guarded_built(made, streamed),
{
    match made {
        Ok(exchange) => Ok(Guarded { exchange, framing: Framing::Unsent { streamed } }),
        Err(err) => Err(HttpFault::Exchange(err)),
    }
}

/// Once a chunk was announced that leaves no room, nothing that follows
/// mends the reply; and bytes scanned in parts are scanned as one.
pub proof fn law_scan_in_parts(scan: ChunkScan, a: Seq<u8>, b: Seq<u8>)
    ensures
        scan.run(a).run(b) == scan.run(a + b),
        scan.run(a) is Oversized ==> scan.run(a + b) is Oversized,
    decreases b.len(),
{
    if b.len() == 0 {
        assert(a + b =~= a);
    } else {
        law_scan_in_parts(scan, a, b.drop_last());
        assert((a + b).drop_last() =~= a + b.drop_last());
    }
}

/// Whether bytes are hexadecimal digits.
pub open spec fn hex_text(bytes: Seq<u8>) -> bool {
    forall|i: int| 0 <= i < bytes.len() ==> hex_digit(#[trigger] bytes[i]) is Some
}

/// The number that hexadecimal digits make.
pub open spec fn hex_value(bytes: Seq<u8>) -> nat
    decreases bytes.len(),
{
    if bytes.len() == 0 {
        0
    } else {
        (hex_value(bytes.drop_last()) * 16 + match hex_digit(bytes.last()) {
            Some(d) => d as int,
            None => 0,
        }) as nat
    }
}

proof fn lemma_size_read(digits: Seq<u8>)
    requires
        hex_text(digits),
    ensures
        ChunkScan::start().run(digits) == (ChunkScan::Size {
            text: if digits.len() == 0 {
                SizeText::Blank
            } else if hex_value(digits) <= usize::MAX {
                SizeText::Digits(hex_value(digits) as usize)
            } else {
                SizeText::Invalid
            },
            extension: false,
            cr: false,
        }),
    decreases digits.len(),
{
    if digits.len() > 0 {
        let most = digits.drop_last();
        let last = digits.last();
        assert(hex_digit(digits[digits.len() - 1]) is Some);
        assert forall|i: int| 0 <= i < most.len() implies hex_digit(#[trigger] most[i]) is Some by {
            assert(most[i] == digits[i]);
        }
        lemma_size_read(most);
    }
}

proof fn lemma_data_read(left: usize, last: bool, bytes: Seq<u8>)
    requires
        left > 0,
        bytes.len() <= left,
    ensures
        (ChunkScan::Data { left, last }).run(bytes) == if bytes.len() < left {
            (ChunkScan::Data { left: (left - bytes.len()) as usize, last })
        } else if last {
            ChunkScan::Over
        } else {
            ChunkScan::start()
        },
    decreases bytes.len(),
{
    if bytes.len() > 0 {
        lemma_data_read(left, last, bytes.drop_last());
    }
}

/// A chunk is followed to its end: behind the digits of a size, the line end
/// and as many bytes as the size says with a line end, the next size begins, or
/// the body is over where the size is zero. A size that leaves no room for the
/// line end is told, and of one that is no number nothing more is read.
pub proof fn law_chunk_is_followed(digits: Seq<u8>, data: Seq<u8>)
    requires
        digits.len() > 0,
        hex_text(digits),
    ensures
        ({
            let line = digits + seq![13u8, 10u8];
            let size = hex_value(digits);
            &&& ChunkScan::start().run(line) is Oversized <==> usize::MAX - 2 < size <= usize::MAX
            &&& size > usize::MAX ==> ChunkScan::start().run(line) is Over
            &&& size <= usize::MAX - 2 && data.len() == size + 2 ==> ChunkScan::start().run(line + data)
                == if size == 0 {
                ChunkScan::Over
            } else {
                ChunkScan::start()
            }
            &&& size <= usize::MAX - 2 && data.len() < size + 2 ==> ChunkScan::start().run(
                line + data,
            ) is Data
        }),
{
    let start = ChunkScan::start();
    let line = digits + seq![13u8, 10u8];
    let size = hex_value(digits);
    lemma_size_read(digits);
    let half = digits.push(13u8);
    assert(line.drop_last() =~= half);
    assert(half.drop_last() =~= digits);
    assert(start.run(half) == start.run(digits).next(13u8));
    assert(start.run(line) == start.run(half).next(10u8));
    if size <= usize::MAX - 2 && data.len() <= size + 2 {
        assert(start.run(line) == ChunkScan::Data { left: (size + 2) as usize, last: size == 0 });
        law_scan_in_parts(start, line, data);
        lemma_data_read((size + 2) as usize, size == 0, data);
    }
}

/// What stands behind a semicolon in the line of a size does not matter.
pub proof fn law_extensions_do_not_matter(digits: Seq<u8>, extension: Seq<u8>)
    requires
        digits.len() > 0,
        hex_text(digits),
        forall|i: int| 0 <= i < extension.len() ==> #[trigger] extension[i] != 10,
    ensures
        ChunkScan::start().run(digits + seq![59u8] + extension + seq![13u8, 10u8])
            == ChunkScan::start().run(digits + seq![13u8, 10u8]),
{
    let start = ChunkScan::start();
    lemma_size_read(digits);
    let plain = digits + seq![13u8, 10u8];
    let half = digits.push(13u8);
    assert(plain.drop_last() =~= half);
    assert(half.drop_last() =~= digits);
    assert(start.run(half) == start.run(digits).next(13u8));
    assert(start.run(plain) == start.run(half).next(10u8));
    let text = start.run(digits)->text;
    let marked = digits.push(59u8);
    assert(marked.drop_last() =~= digits);
    assert(start.run(marked) == ChunkScan::Size { text, extension: true, cr: false });
    lemma_extension_read(start.run(marked), text, extension);
    law_scan_in_parts(start, marked, extension);
    let all = digits + seq![59u8] + extension + seq![13u8, 10u8];
    let most = (marked + extension).push(13u8);
    assert(all.drop_last() =~= most);
    assert(most.drop_last() =~= marked + extension);
    assert(start.run(most) == start.run(marked + extension).next(13u8));
    assert(start.run(all) == start.run(most).next(10u8));
}

proof fn lemma_extension_read(scan: ChunkScan, text: SizeText, extension: Seq<u8>)
    requires
        scan == (ChunkScan::Size { text, extension: true, cr: false }),
        forall|i: int| 0 <= i < extension.len() ==> #[trigger] extension[i] != 10,
    ensures
        scan.run(extension) matches ChunkScan::Size { text: own, extension: true, .. } && own == text,
    decreases extension.len(),
{
    if extension.len() > 0 {
        let most = extension.drop_last();
        assert forall|i: int| 0 <= i < most.len() implies #[trigger] most[i] != 10 by {
            assert(most[i] == extension[i]);
        }
        lemma_extension_read(scan, text, most);
        assert(extension[extension.len() - 1] != 10);
    }
}

/// A guarded step is the step of its exchange, unless the reply announces a
/// chunk that leaves no room: then it fails with just that.
pub proof fn law_guard_passes_steps_on<T, E>(framing: Framing, bytes: Option<Seq<u8>>, outcome: Outcome<T, E>)
    ensures
        ({
            let step = guarded_step(framing, bytes, outcome);
            let refused = framing.after(bytes).oversized();
            &&& step == Outcome::<T, HttpFault<E>>::Failed(HttpFault::ChunkSize) <==> refused
            &&& !refused ==> (step is Read <==> outcome is Read)
            &&& !refused ==> (outcome matches Outcome::Write(out) ==> step == Outcome::<
                T,
                HttpFault<E>,
            >::Write(out))
            &&& step matches Outcome::Write(out) ==> outcome == Outcome::<T, E>::Write(out)
            &&& step matches Outcome::Done(value) ==> outcome == Outcome::<T, E>::Done(value)
            &&& !refused ==> (outcome is Done <==> step is Done)
            &&& step matches Outcome::Failed(HttpFault::Exchange(err)) ==> outcome == Outcome::<
                T,
                E,
            >::Failed(err)
        }),
{
}

/// Only a body in chunks can be refused: one is in chunks where its encoding
/// says so, in whatever case, and never without one; nor is that of a reply
/// without a body, or of a stream that was not granted.
pub proof fn law_chunked_replies(reply: ReplyHeadView, streamed: bool)
    ensures
        reply.encoding is None ==> !reply.chunked(streamed),
        reply.chunked(true) ==> 200 <= reply.status <= 299,
        reply.chunked(false) ==> reply.status != 204 && reply.status != 304,
        forall|other: Seq<char>|
            reply.encoding is Some && ascii_lower(other) == #[trigger] ascii_lower(reply.encoding->0)
                ==> (ReplyHeadView { encoding: Some(other), ..reply }).chunked(streamed)
                == reply.chunked(streamed),
{
}

/// A reply that is refused does not reach its exchange; any other does, and
/// the framing goes on with every step.
pub proof fn law_refused_reply_is_not_taken<X>(guarded: Guarded<X>, bytes: Option<Seq<u8>>, next: X)
    ensures
        guarded_left(guarded, bytes, next).framing == guarded.framing.after(bytes),
        guarded.framing.after(bytes).oversized() ==> guarded_left(guarded, bytes, next).exchange
            == guarded.exchange,
        !guarded.framing.after(bytes).oversized() ==> guarded_left(guarded, bytes, next).exchange == next,
{
}

/// Nothing is read of a reply before its request is written; the chunks of a
/// body are looked at from its first byte on, and however it comes in parts; a
/// refused reply stays refused.
pub proof fn law_framing_follows_the_reply(framing: Framing, a: Seq<u8>, b: Seq<u8>)
    ensures
        framing is Unsent ==> !framing.after(Some(a)).oversized() && framing.after(Some(a)) is Head,
        framing is Chunks ==> framing.after(Some(a)).after(Some(b)) == framing.after(Some(a + b)),
        framing.oversized() ==> framing.after(Some(a)).oversized() && framing.after(None).oversized(),
        framing matches Framing::Head { head, streamed } ==> (head_step(head, a) matches HeadStepView::Done(
            reply,
        ) && reply.chunked(streamed) ==> framing.after(Some(a)).after(Some(b)) == Framing::Chunks(
            ChunkScan::start().run((head_step(head, a)->Done_0).rest + b),
        )),
        framing.after(Some(a)) is Plain ==> framing.after(Some(a)).after(Some(b)) is Plain,
{
    if let Framing::Chunks(scan) = framing {
        law_scan_in_parts(scan, a, b);
        let none: Seq<u8> = seq![];
        law_scan_in_parts(scan, none, a);
        assert(none + a =~= a);
        assert(scan.run(none) == scan);
    }
    if let Framing::Head { head, streamed } = framing {
        if let HeadStepView::Done(reply) = head_step(head, a) {
            law_scan_in_parts(ChunkScan::start(), reply.rest, b);
        }
    }
}

} // verus!
