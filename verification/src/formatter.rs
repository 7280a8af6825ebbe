//! The presenter: the sink that turns connection events and byte dumps into
//! the lines of the trace.
//!
//! Output is a sequence of bytes.  One-line events start with a bullet; a
//! block is an opening line, a body in which every line starts with the left
//! rail, and a closing line.

use vstd::prelude::*;
use vstd::slice::slice_subrange;
use vstd::utf8::decode_utf8;
use vstd::utf8::encode_utf8;
use vstd::utf8::valid_utf8;

verus! {

/// The half of a connection that produces the bytes being shown.
#[derive(Debug, Clone, Copy, PartialEq, Eq, Structural)]
pub enum Side {
    Client,
    Server,
}

impl Side {
    /// The name of the side as it appears in the trace.
    pub open spec fn spec_name(self) -> Seq<char> {
        match self {
            Side::Client => "CLIENT"@,
            Side::Server => "SERVER"@,
        }
    }

    /// The name of the side as it appears in the trace.
    pub fn name(self) -> (name: &'static str)
        ensures
            name@ == self.spec_name(),
    {
        match self {
            Side::Client => "CLIENT",
            Side::Server => "SERVER",
        }
    }
}

/// The line feed.
pub const NEWLINE: u8 = 0x0a;

/// The horizontal tab.
pub const TAB: u8 = 0x09;

/// The left rail that starts every line of a block's body: U+2502 in UTF-8.
pub open spec fn rail() -> Seq<u8> {
    seq![0xe2u8, 0x94u8, 0x82u8]
}

/// The corner that starts a block's opening line: U+250C in UTF-8.
pub open spec fn opening_corner() -> Seq<u8> {
    seq![0xe2u8, 0x94u8, 0x8cu8]
}

/// The corner that makes up a block's closing line: U+2514 in UTF-8.
pub open spec fn closing_corner() -> Seq<u8> {
    seq![0xe2u8, 0x94u8, 0x94u8]
}

/// `box_drawing::light::VERTICAL` as bytes.  The constant is the one-character
/// string U+2502, whose UTF-8 encoding is the three bytes of [`rail`].
#[verifier::external_body]
fn vertical() -> (bytes: &'static [u8])
    ensures
        bytes@ == rail(),
{
    box_drawing::light::VERTICAL.as_bytes()
}

/// `box_drawing::light::DOWN_RIGHT` as bytes.  The constant is the
/// one-character string U+250C, whose UTF-8 encoding is the three bytes of
/// [`opening_corner`].
#[verifier::external_body]
fn down_right() -> (bytes: &'static [u8])
    ensures
        bytes@ == opening_corner(),
{
    box_drawing::light::DOWN_RIGHT.as_bytes()
}

/// `box_drawing::light::UP_RIGHT` as bytes.  The constant is the
/// one-character string U+2514, whose UTF-8 encoding is the three bytes of
/// [`closing_corner`].
#[verifier::external_body]
fn up_right() -> (bytes: &'static [u8])
    ensures
        bytes@ == closing_corner(),
{
    box_drawing::light::UP_RIGHT.as_bytes()
}

/// Appends `bytes` to `out`.
pub(crate) fn append(out: &mut Vec<u8>, bytes: &[u8])
    ensures
        final(out)@ == old(out)@ + bytes@,
{
    out.extend_from_slice(bytes);
    assert(out@ =~= old(out)@ + bytes@);
}

/// The line that reports a new connection.
pub open spec fn connected_line(local: Seq<char>, remote: Seq<char>) -> Seq<u8> {
    encode_utf8("\u{2022} PROXY "@) + encode_utf8(local) + encode_utf8(" to "@) + encode_utf8(
        remote,
    ) + seq![NEWLINE]
}

/// The line of a one-line event.
pub open spec fn message_line(side: Side, message: Seq<char>) -> Seq<u8> {
    encode_utf8("\u{2022} "@) + encode_utf8(side.spec_name()) + encode_utf8(" "@) + encode_utf8(
        message,
    ) + seq![NEWLINE]
}

/// The opening line of a block: the corner, the side and, unless it is
/// empty, the header.
pub open spec fn opening_line(side: Side, header: Seq<char>) -> Seq<u8> {
    opening_corner() + encode_utf8(" "@) + encode_utf8(side.spec_name()) + (if header.len() > 0 {
        encode_utf8(" "@) + encode_utf8(header)
    } else {
        Seq::empty()
    }) + seq![NEWLINE]
}

/// The closing line of a block.
pub open spec fn closing_line() -> Seq<u8> {
    closing_corner() + seq![NEWLINE]
}

/// The body bytes that `content` becomes when it is written inside a block,
/// starting at the beginning of a line or not: the rail goes in front of
/// every byte that starts a line.
pub open spec fn railed(content: Seq<u8>, at_start: bool) -> Seq<u8>
    decreases content.len(),
{
    if content.len() == 0 {
        Seq::empty()
    } else {
        (if at_start {
            rail()
        } else {
            Seq::empty()
        }) + seq![content[0]] + railed(content.skip(1), content[0] == NEWLINE)
    }
}

/// Whether the output stands at the beginning of a line once `content` has
/// been written.
pub open spec fn at_start_after(content: Seq<u8>, at_start: bool) -> bool {
    if content.len() == 0 {
        at_start
    } else {
        content.last() == NEWLINE
    }
}

/// What closes a block: a line feed if the body stopped in mid-line, then
/// the closing line.
pub open spec fn block_end(at_start: bool) -> Seq<u8> {
    (if at_start {
        Seq::empty()
    } else {
        seq![NEWLINE]
    }) + closing_line()
}

/// Writing `a` and then `b` inside a block gives the same body as writing
/// `a + b` at once.
pub proof fn lemma_railed_concat(a: Seq<u8>, b: Seq<u8>, at_start: bool)
    ensures
        railed(a + b, at_start) == railed(a, at_start) + railed(b, at_start_after(a, at_start)),
        at_start_after(a + b, at_start) == at_start_after(b, at_start_after(a, at_start)),
    decreases a.len(),
{
    if a.len() == 0 {
        assert(a + b =~= b);
        assert(railed(a, at_start) + railed(b, at_start) =~= railed(b, at_start));
    } else {
        let next = a[0] == NEWLINE;
        assert((a + b).skip(1) =~= a.skip(1) + b);
        assert((a + b)[0] == a[0]);
        lemma_railed_concat(a.skip(1), b, next);
        if a.len() == 1 {
            assert(a.skip(1).len() == 0);
        } else {
            assert(a.skip(1).last() == a.last());
        }
        assert(at_start_after(a.skip(1), next) == at_start_after(a, at_start));
        assert(railed(a + b, at_start) =~= railed(a, at_start) + railed(
            b,
            at_start_after(a, at_start),
        ));
        if b.len() > 0 {
            assert((a + b).last() == b.last());
        } else {
            assert(a + b =~= a);
        }
    }
}

/// A presenter of trace output.
///
/// `output` is everything the presenter has rendered and not yet handed on.
/// Outside a block it stands at the beginning of a line.
pub trait Formatter {
    /// The bytes rendered so far.
    spec fn output(&self) -> Seq<u8>;

    /// Between `start_block` and `end_block`.
    spec fn in_block(&self) -> bool;

    /// The output stands at the beginning of a line.
    spec fn at_start(&self) -> bool;

    /// Text detection is switched off.
    spec fn forced_binary(&self) -> bool;

    /// The presenter's own invariant.
    spec fn wf(&self) -> bool;

    /// Outside a block the output stands at the beginning of a line.
    proof fn lemma_outside_block(&self)
        requires
            self.wf(),
            !self.in_block(),
        ensures
            self.at_start(),
    ;

    /// Reports that a connection from `local` is being forwarded to `remote`.
    fn connected(&mut self, local: &str, remote: &str)
        requires
            old(self).wf(),
        ensures
            final(self).wf(),
            final(self).output() == old(self).output() + connected_line(local@, remote@),
            final(self).in_block() == old(self).in_block(),
            final(self).at_start() == old(self).at_start(),
            final(self).forced_binary() == old(self).forced_binary(),
    ;

    /// Emits a one-line event.
    fn message(&mut self, side: Side, message: &str)
        requires
            old(self).wf(),
            !old(self).in_block(),
        ensures
            final(self).wf(),
            final(self).output() == old(self).output() + message_line(side, message@),
            !final(self).in_block(),
            final(self).at_start(),
            final(self).forced_binary() == old(self).forced_binary(),
    ;

    /// Opens a block with its opening line.
    fn start_block(&mut self, side: Side, header: &str)
        requires
            old(self).wf(),
            !old(self).in_block(),
        ensures
            final(self).wf(),
            final(self).output() == old(self).output() + opening_line(side, header@),
            final(self).in_block(),
            final(self).at_start(),
            final(self).forced_binary() == old(self).forced_binary(),
    ;

    /// Writes `content` into the body of the open block.
    fn write(&mut self, content: &[u8])
        requires
            old(self).wf(),
            old(self).in_block(),
        ensures
            final(self).wf(),
            final(self).output() == old(self).output() + railed(content@, old(self).at_start()),
            final(self).in_block(),
            final(self).at_start() == at_start_after(content@, old(self).at_start()),
            final(self).forced_binary() == old(self).forced_binary(),
    ;

    /// Closes the open block: ends the line under way, then emits the
    /// closing line.
    fn end_block(&mut self)
        requires
            old(self).wf(),
            old(self).in_block(),
        ensures
            final(self).wf(),
            final(self).output() == old(self).output() + block_end(old(self).at_start()),
            !final(self).in_block(),
            final(self).at_start(),
            final(self).forced_binary() == old(self).forced_binary(),
    ;

    /// Whether text detection is switched off.
    fn force_binary(&self) -> (forced: bool)
        requires
            self.wf(),
        ensures
            forced == self.forced_binary(),
    ;
}

/// The presenter that renders the trace as text into a buffer of bytes.
pub struct TextFormatter {
    out: Vec<u8>,
    force_binary: bool,
    in_block: bool,
    at_start: bool,
}

impl TextFormatter {
    /// A presenter with nothing rendered, outside any block, with text
    /// detection on.
    pub fn new() -> (f: TextFormatter)
        ensures
            f.wf(),
            f.output() == Seq::<u8>::empty(),
            !f.in_block(),
            f.at_start(),
            !f.forced_binary(),
    {
        TextFormatter { out: Vec::new(), force_binary: false, in_block: false, at_start: true }
    }

    /// Switches text detection off (`true`) or on (`false`).
    pub fn set_force_binary(&mut self, b: bool)
        requires
            old(self).wf(),
        ensures
            final(self).wf(),
            final(self).forced_binary() == b,
            final(self).output() == old(self).output(),
            final(self).in_block() == old(self).in_block(),
            final(self).at_start() == old(self).at_start(),
    {
        self.force_binary = b;
    }

    /// Whether a block is open.
    pub fn block_open(&self) -> (open: bool)
        ensures
            open == self.in_block(),
    {
        self.in_block
    }

    /// Ends the line under way, if any.
    fn go_to_start(&mut self)
        requires
            old(self).wf(),
            old(self).in_block(),
        ensures
            final(self).wf(),
            final(self).in_block(),
            final(self).at_start(),
            final(self).forced_binary() == old(self).forced_binary(),
            final(self).output() == old(self).output() + (if old(self).at_start() {
                Seq::<u8>::empty()
            } else {
                seq![NEWLINE]
            }),
    {
        if !self.at_start {
            self.out.push(NEWLINE);
        }
        self.at_start = true;
        assert(self.out@ =~= old(self).out@ + (if old(self).at_start {
            Seq::<u8>::empty()
        } else {
            seq![NEWLINE]
        }));
    }

    /// Hands over the bytes rendered so far and starts afresh; the block
    /// state stays as it is.
    pub fn take_output(&mut self) -> (bytes: Vec<u8>)
        requires
            old(self).wf(),
        ensures
            final(self).wf(),
            bytes@ == old(self).output(),
            final(self).output() == Seq::<u8>::empty(),
            final(self).in_block() == old(self).in_block(),
            final(self).at_start() == old(self).at_start(),
            final(self).forced_binary() == old(self).forced_binary(),
    {
        let mut bytes: Vec<u8> = Vec::new();
        std::mem::swap(&mut self.out, &mut bytes);
        bytes
    }
}

impl Formatter for TextFormatter {
    closed spec fn output(&self) -> Seq<u8> {
        self.out@
    }

    closed spec fn in_block(&self) -> bool {
        self.in_block
    }

    closed spec fn at_start(&self) -> bool {
        self.at_start
    }

    closed spec fn forced_binary(&self) -> bool {
        self.force_binary
    }

    closed spec fn wf(&self) -> bool {
        self.in_block || self.at_start
    }

    proof fn lemma_outside_block(&self) {
    }

    fn connected(&mut self, local: &str, remote: &str) {
        append(&mut self.out, "\u{2022} PROXY ".as_bytes());
        append(&mut self.out, local.as_bytes());
        append(&mut self.out, " to ".as_bytes());
        append(&mut self.out, remote.as_bytes());
        self.out.push(NEWLINE);
        assert(self.out@ =~= old(self).out@ + connected_line(local@, remote@));
    }

    fn message(&mut self, side: Side, message: &str) {
        append(&mut self.out, "\u{2022} ".as_bytes());
        append(&mut self.out, side.name().as_bytes());
        append(&mut self.out, " ".as_bytes());
        append(&mut self.out, message.as_bytes());
        self.out.push(NEWLINE);
        assert(self.out@ =~= old(self).out@ + message_line(side, message@));
    }

    fn start_block(&mut self, side: Side, header: &str) {
        append(&mut self.out, down_right());
        append(&mut self.out, " ".as_bytes());
        append(&mut self.out, side.name().as_bytes());
        if !header.is_empty() {
            append(&mut self.out, " ".as_bytes());
            append(&mut self.out, header.as_bytes());
        }
        self.out.push(NEWLINE);
        self.in_block = true;
        assert(self.out@ =~= old(self).out@ + opening_line(side, header@));
    }

    fn write(&mut self, content: &[u8]) {
        let mut i: usize = 0;
        assert(content@.take(0) =~= Seq::<u8>::empty());
        assert(self.out@ =~= old(self).out@ + Seq::<u8>::empty());
        while i < content.len()
            invariant
                i <= content.len(),
                self.in_block,
                self.force_binary == old(self).force_binary,
                self.out@ == old(self).out@ + railed(content@.take(i as int), old(self).at_start),
                self.at_start == at_start_after(content@.take(i as int), old(self).at_start),
            decreases content.len() - i,
        {
            let b: u8 = content[i];
            let ghost sofar = self.out@;
            if self.at_start {
                append(&mut self.out, vertical());
            }
            self.out.push(b);
            proof {
                let done = content@.take(i as int);
                assert(content@.take(i + 1) =~= done + seq![b]);
                lemma_railed_concat(done, seq![b], old(self).at_start);
                assert(seq![b].skip(1).len() == 0);
                assert(railed(seq![b].skip(1), b == NEWLINE) =~= Seq::<u8>::empty());
                assert(railed(seq![b], self.at_start) =~= (if self.at_start {
                    rail()
                } else {
                    Seq::empty()
                }) + seq![b]);
                assert(self.out@ =~= sofar + railed(seq![b], self.at_start));
                assert(self.out@ =~= old(self).out@ + railed(
                    content@.take(i + 1),
                    old(self).at_start,
                ));
            }
            self.at_start = b == NEWLINE;
            i = i + 1;
        }
        assert(content@.take(i as int) =~= content@);
    }

    fn end_block(&mut self) {
        self.go_to_start();
        append(&mut self.out, up_right());
        self.out.push(NEWLINE);
        self.in_block = false;
        assert(self.out@ =~= old(self).out@ + block_end(old(self).at_start));
    }

    fn force_binary(&self) -> (forced: bool) {
        self.force_binary
    }
}

/// The space.
pub const SPACE: u8 = 0x20;

/// The underscore, which stands for a byte that a short row lacks.
pub const UNDERSCORE: u8 = 0x5f;

/// The character of the decimal digit `d`.
pub open spec fn digit(d: nat) -> char
    recommends
        d < 10,
{
    "0123456789"@[d as int]
}

/// `n` in decimal, without leading zeros.
pub open spec fn decimal(n: nat) -> Seq<char>
    decreases n,
{
    if n < 10 {
        seq![digit(n)]
    } else {
        decimal(n / 10) + seq![digit(n % 10)]
    }
}

/// The one-character string of the decimal digit `d`.
fn digit_str(d: usize) -> (s: &'static str)
    requires
        d < 10,
    ensures
        s@ == seq![digit(d as nat)],
{
    proof {
        reveal_strlit("0123456789");
    }
    "0123456789".substring_char(d, d + 1)
}

/// Renders `n` in decimal.
pub fn decimal_string(n: usize) -> (s: String)
    ensures
        s@ == decimal(n as nat),
    decreases n,
{
    if n < 10 {
        String::from_str(digit_str(n))
    } else {
        let mut s = decimal_string(n / 10);
        s.append(digit_str(n % 10));
        s
    }
}

/// The lower-case hexadecimal digit of `d`, in ASCII.
pub open spec fn hex_digit(d: u8) -> u8
    recommends
        d < 16,
{
    if d < 10 {
        (0x30 + d) as u8
    } else {
        (0x57 + d) as u8
    }
}

fn hex_digit_of(d: u8) -> (c: u8)
    requires
        d < 16,
    ensures
        c == hex_digit(d),
{
    if d < 10 {
        0x30 + d
    } else {
        0x57 + d
    }
}

/// A control character: a code point of the general category Cc.
pub open spec fn is_control(c: char) -> bool {
    c as u32 <= 0x1f || 0x7f <= c as u32 <= 0x9f
}

/// A character that makes a payload binary: a control character other than
/// the line feed and the tab.
pub open spec fn is_scary(c: char) -> bool {
    is_control(c) && c != '\n' && c != '\t'
}

/// `data` is text: valid UTF-8 without a control character other than the
/// line feed and the tab.
pub open spec fn printable_text(data: Seq<u8>) -> bool {
    &&& valid_utf8(data)
    &&& forall|i: int| 0 <= i < decode_utf8(data).len() ==> !is_scary(#[trigger] decode_utf8(data)[i])
}

fn scary(c: char) -> (b: bool)
    ensures
        b == is_scary(c),
{
    let u: u32 = c as u32;
    (u <= 0x1f || (0x7f <= u && u <= 0x9f)) && c != '\n' && c != '\t'
}

/// `core::str::from_utf8`, with the error dropped: the string slice over
/// `data` when `data` is valid UTF-8, nothing when it is not.  The slice is
/// the very bytes of `data`.
#[verifier::external_body]
fn utf8_text(data: &[u8]) -> (text: Option<&str>)
    ensures
        text is Some <==> valid_utf8(data@),
        text matches Some(t) ==> encode_utf8(t@) == data@,
{
    std::str::from_utf8(data).ok()
}

/// The text that `data` holds, if it is text.
pub fn is_printable_text(data: &[u8]) -> (text: Option<&str>)
    ensures
        text is Some <==> printable_text(data@),
        text matches Some(t) ==> t@ == decode_utf8(data@) && encode_utf8(t@) == data@,
{
    match utf8_text(data) {
        None => None,
        Some(t) => {
            broadcast use vstd::utf8::encode_utf8_decode_utf8;
            broadcast use vstd::string::axiom_spec_iter;

            assert(t@ == decode_utf8(data@));
            let mut clean: bool = true;
            for c in it: t.chars()
                invariant
                    it.seq() == t@,
                    clean <==> forall|j: int| 0 <= j < it.index() ==> !is_scary(#[trigger] t@[j]),
            {
                if scary(c) {
                    clean = false;
                }
            }
            if clean {
                Some(t)
            } else {
                None
            }
        },
    }
}

/// How one byte of text is shown: the line feed as a visible mark followed
/// by a line feed, the tab as an arrow, any other byte as it is.
pub open spec fn shown_text_byte(b: u8) -> Seq<u8> {
    if b == NEWLINE {
        encode_utf8("\u{21b5}"@) + seq![NEWLINE]
    } else if b == TAB {
        encode_utf8("\u{2192}"@)
    } else {
        seq![b]
    }
}

/// The dump of text: each byte as [`shown_text_byte`] shows it.
pub open spec fn text_dump(text: Seq<u8>) -> Seq<u8>
    decreases text.len(),
{
    if text.len() == 0 {
        Seq::empty()
    } else {
        text_dump(text.drop_last()) + shown_text_byte(text.last())
    }
}

/// The cell of column `i` in a row of the binary dump: two hexadecimal
/// digits, or two underscores where the row has no such byte, then a space;
/// one more space after every fourth column and one more after every eighth.
pub open spec fn hex_cell(line: Seq<u8>, i: int) -> Seq<u8> {
    (if 0 <= i < line.len() {
        seq![hex_digit(line[i] / 16), hex_digit(line[i] % 16), SPACE]
    } else {
        seq![UNDERSCORE, UNDERSCORE, SPACE]
    }) + (if i % 4 == 3 {
        seq![SPACE]
    } else {
        Seq::empty()
    }) + (if i % 8 == 7 {
        seq![SPACE]
    } else {
        Seq::empty()
    })
}

/// The cells of the columns below `upto`.
pub open spec fn hex_cells(line: Seq<u8>, upto: int) -> Seq<u8>
    decreases upto,
{
    if upto <= 0 {
        Seq::empty()
    } else {
        hex_cells(line, upto - 1) + hex_cell(line, upto - 1)
    }
}

/// How one byte is shown in the gutter beside the hexadecimal cells:
/// printable ASCII as itself, the line feed and the tab by their marks, the
/// zero byte by a light shade and any other byte by a medium shade.
pub open spec fn gutter_glyph(b: u8) -> Seq<u8> {
    if 0x20 <= b <= 0x7e {
        seq![b]
    } else if b == NEWLINE {
        encode_utf8("\u{21b5}"@)
    } else if b == TAB {
        encode_utf8("\u{2192}"@)
    } else if b == 0 {
        encode_utf8("\u{2591}"@)
    } else {
        encode_utf8("\u{2592}"@)
    }
}

/// The gutter of a row.
pub open spec fn gutter(line: Seq<u8>) -> Seq<u8>
    decreases line.len(),
{
    if line.len() == 0 {
        Seq::empty()
    } else {
        gutter(line.drop_last()) + gutter_glyph(line.last())
    }
}

/// One row of the binary dump, `width` columns wide.
pub open spec fn hex_row(line: Seq<u8>, width: int) -> Seq<u8> {
    hex_cells(line, width) + seq![SPACE, SPACE] + gutter(line) + seq![NEWLINE]
}

/// Number of bytes in a row of the binary dump.
pub const ROW_WIDTH: usize = 16;

/// The binary dump: rows of sixteen bytes, the last one possibly shorter.
pub open spec fn binary_dump(data: Seq<u8>) -> Seq<u8>
    decreases data.len(),
{
    if data.len() == 0 {
        Seq::empty()
    } else {
        let n = if data.len() < ROW_WIDTH {
            data.len() as int
        } else {
            ROW_WIDTH as int
        };
        hex_row(data.take(n), ROW_WIDTH as int) + binary_dump(data.skip(n))
    }
}

/// Appends the row of `line` to `out`.
fn push_row(out: &mut Vec<u8>, line: &[u8], width: usize)
    ensures
        final(out)@ == old(out)@ + hex_row(line@, width as int),
{
    let mut i: usize = 0;
    assert(out@ =~= old(out)@ + hex_cells(line@, 0));
    while i < width
        invariant
            i <= width,
            out@ == old(out)@ + hex_cells(line@, i as int),
        decreases width - i,
    {
        let ghost before = out@;
        if i < line.len() {
            let b: u8 = line[i];
            out.push(hex_digit_of(b / 16));
            out.push(hex_digit_of(b % 16));
            out.push(SPACE);
        } else {
            out.push(UNDERSCORE);
            out.push(UNDERSCORE);
            out.push(SPACE);
        }
        if i % 4 == 3 {
            out.push(SPACE);
        }
        if i % 8 == 7 {
            out.push(SPACE);
        }
        assert(out@ =~= before + hex_cell(line@, i as int));
        i = i + 1;
        assert(out@ =~= old(out)@ + hex_cells(line@, i as int));
    }
    out.push(SPACE);
    out.push(SPACE);
    let ghost cells = out@;
    let mut k: usize = 0;
    assert(line@.take(0) =~= Seq::<u8>::empty());
    assert(out@ =~= cells + gutter(line@.take(0)));
    while k < line.len()
        invariant
            k <= line.len(),
            out@ == cells + gutter(line@.take(k as int)),
        decreases line.len() - k,
    {
        let b: u8 = line[k];
        let ghost before = out@;
        if 0x20 <= b && b <= 0x7e {
            out.push(b);
        } else if b == NEWLINE {
            append(out, "\u{21b5}".as_bytes());
        } else if b == TAB {
            append(out, "\u{2192}".as_bytes());
        } else if b == 0 {
            append(out, "\u{2591}".as_bytes());
        } else {
            append(out, "\u{2592}".as_bytes());
        }
        assert(out@ =~= before + gutter_glyph(b));
        assert(line@.take(k + 1).drop_last() =~= line@.take(k as int));
        k = k + 1;
        assert(out@ =~= cells + gutter(line@.take(k as int)));
    }
    assert(line@.take(k as int) =~= line@);
    out.push(NEWLINE);
    assert(out@ =~= old(out)@ + hex_row(line@, width as int));
}

/// Writes `text` into the open block as text: line feeds and tabs are made
/// visible.
pub fn dump_text<F: Formatter>(f: &mut F, text: &str)
    requires
        old(f).wf(),
        old(f).in_block(),
    ensures
        final(f).wf(),
        final(f).in_block(),
        final(f).output() == old(f).output() + railed(
            text_dump(encode_utf8(text@)),
            old(f).at_start(),
        ),
        final(f).at_start() == at_start_after(text_dump(encode_utf8(text@)), old(f).at_start()),
        final(f).forced_binary() == old(f).forced_binary(),
{
    let bytes = text.as_bytes();
    let mut shown: Vec<u8> = Vec::new();
    let mut i: usize = 0;
    assert(bytes@.take(0) =~= Seq::<u8>::empty());
    while i < bytes.len()
        invariant
            i <= bytes.len(),
            shown@ == text_dump(bytes@.take(i as int)),
        decreases bytes.len() - i,
    {
        let b: u8 = bytes[i];
        let ghost before = shown@;
        if b == NEWLINE {
            append(&mut shown, "\u{21b5}".as_bytes());
            shown.push(NEWLINE);
        } else if b == TAB {
            append(&mut shown, "\u{2192}".as_bytes());
        } else {
            shown.push(b);
        }
        assert(shown@ =~= before + shown_text_byte(b));
        assert(bytes@.take(i + 1).drop_last() =~= bytes@.take(i as int));
        i = i + 1;
    }
    assert(bytes@.take(i as int) =~= bytes@);
    f.write(shown.as_slice());
}

/// Writes one row of a binary dump into the open block.
pub fn dump_line<F: Formatter>(f: &mut F, line: &[u8], width: usize)
    requires
        old(f).wf(),
        old(f).in_block(),
    ensures
        final(f).wf(),
        final(f).in_block(),
        final(f).output() == old(f).output() + railed(
            hex_row(line@, width as int),
            old(f).at_start(),
        ),
        final(f).at_start(),
        final(f).forced_binary() == old(f).forced_binary(),
{
    let mut row: Vec<u8> = Vec::new();
    push_row(&mut row, line, width);
    assert(row@ =~= hex_row(line@, width as int));
    f.write(row.as_slice());
}

/// Writes `data` into the open block as a binary dump.
pub fn dump_binary<F: Formatter>(f: &mut F, data: &[u8])
    requires
        old(f).wf(),
        old(f).in_block(),
    ensures
        final(f).wf(),
        final(f).in_block(),
        final(f).output() == old(f).output() + railed(binary_dump(data@), old(f).at_start()),
        final(f).at_start() == at_start_after(binary_dump(data@), old(f).at_start()),
        final(f).forced_binary() == old(f).forced_binary(),
{
    let mut shown: Vec<u8> = Vec::new();
    let mut pos: usize = 0;
    assert(data@.skip(0) =~= data@);
    assert(shown@ + binary_dump(data@) =~= binary_dump(data@));
    while pos < data.len()
        invariant
            pos <= data.len(),
            shown@ + binary_dump(data@.skip(pos as int)) == binary_dump(data@),
        decreases data.len() - pos,
    {
        let left: usize = data.len() - pos;
        let n: usize = if left < ROW_WIDTH {
            left
        } else {
            ROW_WIDTH
        };
        let ghost before = shown@;
        let ghost rest = data@.skip(pos as int);
        push_row(&mut shown, slice_subrange(data, pos, pos + n), ROW_WIDTH);
        assert(data@.subrange(pos as int, pos + n) =~= rest.take(n as int));
        assert(data@.skip(pos + n) =~= rest.skip(n as int));
        assert(before + binary_dump(rest) =~= before + hex_row(rest.take(n as int), 16)
            + binary_dump(rest.skip(n as int)));
        pos = pos + n;
    }
    assert(shown@ + binary_dump(data@.skip(pos as int)) =~= shown@);
    f.write(shown.as_slice());
}

/// Whether a payload is dumped as text: text detection is on and the
/// payload is text.
pub open spec fn shown_as_text(data: Seq<u8>, forced_binary: bool) -> bool {
    !forced_binary && printable_text(data)
}

/// Text classification: a payload is shown as text exactly when detection
/// is on and the payload is valid UTF-8 in which every control character is
/// a line feed or a tab; with detection off every payload is binary.
pub proof fn lemma_text_classification(data: Seq<u8>, forced_binary: bool)
    ensures
        shown_as_text(data, forced_binary) <==> !forced_binary && valid_utf8(data) && forall|
            i: int,
        |
            0 <= i < decode_utf8(data).len() && is_control(#[trigger] decode_utf8(data)[i])
                ==> decode_utf8(data)[i] == '\n' || decode_utf8(data)[i] == '\t',
        !shown_as_text(data, true),
{
}

/// The header of a dump: kind and size, and for text that does not end in
/// a line feed a warning, which `emphatic` ends in an exclamation mark.
pub open spec fn size_label(as_text: bool, data: Seq<u8>, emphatic: bool) -> Seq<char> {
    if as_text {
        "text, "@ + decimal(data.len()) + " bytes"@ + (if data.len() == 0 || data.last()
            == NEWLINE {
            Seq::<char>::empty()
        } else if emphatic {
            ", no trailing newline!"@
        } else {
            ", no trailing newline"@
        })
    } else {
        "binary, "@ + decimal(data.len()) + " bytes"@
    }
}

/// `label` followed by each remark, each after a comma and a space.
pub open spec fn with_remarks(label: Seq<char>, remarks: Seq<Seq<char>>) -> Seq<char>
    decreases remarks.len(),
{
    if remarks.len() == 0 {
        label
    } else {
        with_remarks(label, remarks.drop_last()) + ", "@ + remarks.last()
    }
}

/// The remarks as character sequences.
pub open spec fn remark_views(remarks: Seq<&str>) -> Seq<Seq<char>> {
    remarks.map_values(|r: &str| r@)
}

/// The body of a dump before the rail is put in front of its lines.
pub open spec fn block_body(data: Seq<u8>, as_text: bool) -> Seq<u8> {
    if as_text {
        text_dump(data)
    } else {
        binary_dump(data)
    }
}

/// A whole block: the opening line, once; the body, every line of it behind
/// the rail; an end of line if the body lacks one; the closing line, once.
pub open spec fn rendered_block(side: Side, header: Seq<char>, body: Seq<u8>) -> Seq<u8> {
    opening_line(side, header) + railed(body, true) + block_end(at_start_after(body, true))
}

/// The block that shows the payload `data`.
pub open spec fn message_block(
    side: Side,
    data: Seq<u8>,
    forced_binary: bool,
    emphatic: bool,
    remarks: Seq<Seq<char>>,
) -> Seq<u8> {
    dump_block(side, data, shown_as_text(data, forced_binary), emphatic, remarks)
}

/// Builds the header of the dump of `data`.
fn block_header(as_text: bool, data: &[u8], emphatic: bool, remarks: &[&str]) -> (header: String)
    ensures
        header@ == with_remarks(size_label(as_text, data@, emphatic), remark_views(remarks@)),
{
    let n: usize = data.len();
    let mut msg: String = if as_text {
        String::from_str("text, ")
    } else {
        String::from_str("binary, ")
    };
    let size = decimal_string(n);
    msg.append(size.as_str());
    msg.append(" bytes");
    if as_text && n > 0 && data[n - 1] != NEWLINE {
        if emphatic {
            msg.append(", no trailing newline!");
        } else {
            msg.append(", no trailing newline");
        }
    }
    assert(msg@ =~= size_label(as_text, data@, emphatic));
    let mut i: usize = 0;
    assert(remark_views(remarks@).take(0) =~= Seq::<Seq<char>>::empty());
    while i < remarks.len()
        invariant
            i <= remarks.len(),
            msg@ == with_remarks(
                size_label(as_text, data@, emphatic),
                remark_views(remarks@).take(i as int),
            ),
        decreases remarks.len() - i,
    {
        let ghost before = msg@;
        msg.append(", ");
        msg.append(remarks[i]);
        proof {
            let all = remark_views(remarks@);
            assert(all.take(i + 1).drop_last() =~= all.take(i as int));
            assert(all.take(i + 1).last() == remarks@[i as int]@);
            assert(msg@ =~= before + ", "@ + remarks@[i as int]@);
        }
        i = i + 1;
    }
    assert(remark_views(remarks@).take(i as int) =~= remark_views(remarks@));
    msg
}

/// The block that shows `data` under a header, as text or as a binary
/// dump.
pub open spec fn dump_block(
    side: Side,
    data: Seq<u8>,
    as_text: bool,
    emphatic: bool,
    remarks: Seq<Seq<char>>,
) -> Seq<u8> {
    rendered_block(
        side,
        with_remarks(size_label(as_text, data, emphatic), remarks),
        block_body(data, as_text),
    )
}

/// Renders `data` as one block: as the text `text`, where it is given, else
/// as a binary dump.
pub(crate) fn print_dump<F: Formatter>(
    f: &mut F,
    side: Side,
    data: &[u8],
    text: Option<&str>,
    emphatic: bool,
    remarks: &[&str],
)
    requires
        old(f).wf(),
        !old(f).in_block(),
        text matches Some(t) ==> encode_utf8(t@) == data@,
    ensures
        final(f).wf(),
        !final(f).in_block(),
        final(f).at_start(),
        final(f).forced_binary() == old(f).forced_binary(),
        final(f).output() == old(f).output() + dump_block(
            side,
            data@,
            text is Some,
            emphatic,
            remark_views(remarks@),
        ),
{
    let header = block_header(text.is_some(), data, emphatic, remarks);
    f.start_block(side, header.as_str());
    let ghost opened = f.output();
    match text {
        Some(t) => {
            dump_text(f, t);
        },
        None => {
            dump_binary(f, data);
        },
    }
    let ghost body = block_body(data@, text is Some);
    assert(f.output() == opened + railed(body, true));
    f.end_block();
    assert(f.output() =~= old(f).output() + rendered_block(side, header@, body));
}

/// Renders `data` as one block, text or binary as detection decides.
pub(crate) fn print_labelled<F: Formatter>(
    f: &mut F,
    side: Side,
    data: &[u8],
    emphatic: bool,
    remarks: &[&str],
)
    requires
        old(f).wf(),
        !old(f).in_block(),
    ensures
        final(f).wf(),
        !final(f).in_block(),
        final(f).at_start(),
        final(f).forced_binary() == old(f).forced_binary(),
        final(f).output() == old(f).output() + message_block(
            side,
            data@,
            old(f).forced_binary(),
            emphatic,
            remark_views(remarks@),
        ),
{
    let text: Option<&str> = if f.force_binary() {
        None
    } else {
        is_printable_text(data)
    };
    print_dump(f, side, data, text, emphatic, remarks);
}

/// Renders `data` as one block headed by its kind, its size and the
/// `remarks`: as text if detection is on and `data` is text, else as a
/// binary dump.
pub fn print_message<F: Formatter>(f: &mut F, side: Side, data: &[u8], remarks: &[&str])
    requires
        old(f).wf(),
        !old(f).in_block(),
    ensures
        final(f).wf(),
        !final(f).in_block(),
        final(f).at_start(),
        final(f).forced_binary() == old(f).forced_binary(),
        final(f).output() == old(f).output() + message_block(
            side,
            data@,
            old(f).forced_binary(),
            false,
            remark_views(remarks@),
        ),
{
    print_labelled(f, side, data, false, remarks)
}

/// The body of a block as it stands in the output, closed by a line feed
/// where the content stopped in mid-line.
pub open spec fn closed_body(content: Seq<u8>) -> Seq<u8> {
    railed(content, true) + (if at_start_after(content, true) {
        Seq::<u8>::empty()
    } else {
        seq![NEWLINE]
    })
}

/// In `body`, a line starts with the rail wherever a line starts: at the
/// front, if `at_start` says that a line starts there, and behind every line
/// feed that is not the last byte.
pub open spec fn lines_railed(body: Seq<u8>, at_start: bool) -> bool {
    forall|i: int|
        0 <= i < body.len() && ((i == 0 && at_start) || (i > 0 && #[trigger] body[i - 1]
            == NEWLINE)) ==> i + 3 <= body.len() && body.subrange(i, i + 3) == rail()
}

/// The left rail stands at the start of every line of a block's body,
/// whatever was written into the block.
pub proof fn lemma_rail_leads_every_line(content: Seq<u8>, at_start: bool)
    ensures
        lines_railed(railed(content, at_start), at_start),
    decreases content.len(),
{
    let body = railed(content, at_start);
    if content.len() > 0 {
        let b = content[0];
        let next = b == NEWLINE;
        let pre = if at_start {
            rail()
        } else {
            Seq::<u8>::empty()
        };
        let tail = railed(content.skip(1), next);
        lemma_rail_leads_every_line(content.skip(1), next);
        let off = pre.len() + 1;
        assert(body =~= pre + seq![b] + tail);
        assert forall|i: int|
            0 <= i < body.len() && ((i == 0 && at_start) || (i > 0 && #[trigger] body[i - 1]
                == NEWLINE)) implies i + 3 <= body.len() && body.subrange(i, i + 3)
            == rail() by {
            if i == 0 {
                assert(body.subrange(0, 3) =~= rail());
            } else if i - 1 < pre.len() {
                assert(body[i - 1] == rail()[i - 1]);
            } else {
                let j = i - off;
                assert(body[i] == tail[j]);
                if j > 0 {
                    assert(tail[j - 1] == body[i - 1]);
                }
                assert(j + 3 <= tail.len() && tail.subrange(j, j + 3) == rail());
                assert(body.subrange(i, i + 3) =~= tail.subrange(j, j + 3));
            }
        }
    }
}

/// The body ends as the content does: it is empty where the content is, and
/// its last byte is the last byte of the content.
pub proof fn lemma_railed_ends_as_content(content: Seq<u8>, at_start: bool)
    ensures
        railed(content, at_start).len() == 0 <==> content.len() == 0,
        content.len() > 0 ==> railed(content, at_start).last() == content.last(),
    decreases content.len(),
{
    if content.len() > 0 {
        let next = content[0] == NEWLINE;
        let rest = content.skip(1);
        lemma_railed_ends_as_content(rest, next);
        if rest.len() > 0 {
            assert(rest.last() == content.last());
        }
    }
}

/// The shape of a block: the opening line, once; then the body, which is
/// made of whole lines that each start with the rail; then the closing line,
/// once.
pub proof fn lemma_block_shape(side: Side, header: Seq<char>, content: Seq<u8>)
    ensures
        rendered_block(side, header, content) == opening_line(side, header) + closed_body(content)
            + closing_line(),
        lines_railed(closed_body(content), true),
        closed_body(content).len() == 0 || closed_body(content).last() == NEWLINE,
{
    let body = railed(content, true);
    let whole = closed_body(content);
    lemma_rail_leads_every_line(content, true);
    lemma_railed_ends_as_content(content, true);
    assert(rendered_block(side, header, content) =~= opening_line(side, header) + whole
        + closing_line());
    if !at_start_after(content, true) {
        assert(whole =~= body.push(NEWLINE));
        assert(body.len() > 0);
        assert(body.last() != NEWLINE);
        assert forall|i: int|
            0 <= i < whole.len() && ((i == 0 && true) || (i > 0 && #[trigger] whole[i - 1]
                == NEWLINE)) implies i + 3 <= whole.len() && whole.subrange(i, i + 3)
            == rail() by {
            if i == 0 {
                assert(body.subrange(0, 3) == rail());
                assert(whole.subrange(0, 3) =~= body.subrange(0, 3));
            } else {
                assert(whole[i - 1] == body[i - 1]);
                assert(i < body.len());
                assert(body.subrange(i, i + 3) == rail());
                assert(whole.subrange(i, i + 3) =~= body.subrange(i, i + 3));
            }
        }
    } else {
        assert(whole =~= body);
    }
}

} // verus!
