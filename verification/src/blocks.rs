//! The block framing of the wire protocol and its incremental parser.
//!
//! A stream is a sequence of blocks.  Each block is a two-byte little-endian
//! header `H` followed by `H >> 1` payload bytes; bit 0 of `H` marks the block
//! that ends a message.

use vstd::prelude::*;
use vstd::slice::slice_subrange;
use vstd::slice::slice_to_vec;

verus! {

/// One complete block taken from the stream.
pub struct Block {
    pub payload: Vec<u8>,
    pub last: bool,
}

/// The mathematical value of a [`Block`].
pub struct BlockView {
    pub payload: Seq<u8>,
    pub last: bool,
}

impl View for Block {
    type V = BlockView;

    open spec fn view(&self) -> BlockView {
        BlockView { payload: self.payload@, last: self.last }
    }
}

/// The views of a sequence of blocks, in order.
pub open spec fn block_views(blocks: Seq<Block>) -> Seq<BlockView> {
    blocks.map_values(|b: Block| b@)
}

/// The header that the two bytes `lo`, `hi` encode, little-endian.
pub open spec fn header_value(lo: u8, hi: u8) -> u16 {
    (lo as int + 256 * (hi as int)) as u16
}

/// Number of payload bytes that a header announces.
pub open spec fn payload_len(header: u16) -> int {
    (header >> 1) as int
}

/// Whether a header marks the end of a message.
pub open spec fn ends_message(header: u16) -> bool {
    header & 1 == 1
}

/// Total length, header included, of the block that starts `s`.
pub open spec fn first_block_len(s: Seq<u8>) -> int
    recommends
        s.len() >= 2,
{
    2 + payload_len(header_value(s[0], s[1]))
}

/// `s` starts with a complete block.
pub open spec fn has_block(s: Seq<u8>) -> bool {
    s.len() >= 2 && s.len() >= first_block_len(s)
}

/// The block that starts `s`.
pub open spec fn first_block(s: Seq<u8>) -> BlockView
    recommends
        has_block(s),
{
    BlockView {
        payload: s.subrange(2, first_block_len(s)),
        last: ends_message(header_value(s[0], s[1])),
    }
}

/// The complete blocks of the stream `s`, in order.
pub open spec fn blocks_of(s: Seq<u8>) -> Seq<BlockView>
    decreases s.len(),
{
    if has_block(s) {
        seq![first_block(s)] + blocks_of(s.skip(first_block_len(s)))
    } else {
        Seq::empty()
    }
}

/// What is left of the stream `s` after its complete blocks: the bytes of a
/// block that has not arrived in full.
pub open spec fn residue_of(s: Seq<u8>) -> Seq<u8>
    decreases s.len(),
{
    if has_block(s) {
        residue_of(s.skip(first_block_len(s)))
    } else {
        s
    }
}

/// A header announces at most 32767 payload bytes.
pub proof fn lemma_payload_len_bound(header: u16)
    ensures
        0 <= payload_len(header) <= 32767,
        payload_len(header) == header as int / 2,
        ends_message(header) <==> header as int % 2 == 1,
{
    assert(header >> 1 <= 32767) by (bit_vector);
    assert(header >> 1 == header / 2) by (bit_vector);
    assert((header & 1 == 1) <==> (header % 2 == 1)) by (bit_vector);
}

/// The residue of a stream holds no complete block, and parsing it again
/// changes nothing.
pub proof fn lemma_residue_incomplete(s: Seq<u8>)
    ensures
        !has_block(residue_of(s)),
        blocks_of(residue_of(s)) == Seq::<BlockView>::empty(),
        residue_of(residue_of(s)) == residue_of(s),
    decreases s.len(),
{
    if has_block(s) {
        lemma_payload_len_bound(header_value(s[0], s[1]));
        lemma_residue_incomplete(s.skip(first_block_len(s)));
    }
}

/// Cutting a stream in two does not change what the parser finds: the blocks
/// of `s + t` are those of `s` followed by those of what `s` left over
/// together with `t`, and the residue is the same either way.
pub proof fn lemma_split_stream(s: Seq<u8>, t: Seq<u8>)
    ensures
        blocks_of(s + t) == blocks_of(s) + blocks_of(residue_of(s) + t),
        residue_of(s + t) == residue_of(residue_of(s) + t),
    decreases s.len(),
{
    if has_block(s) {
        let n = first_block_len(s);
        lemma_payload_len_bound(header_value(s[0], s[1]));
        assert((s + t)[0] == s[0] && (s + t)[1] == s[1]);
        assert(has_block(s + t));
        assert((s + t).skip(n) =~= s.skip(n) + t);
        assert((s + t).subrange(2, n) =~= s.subrange(2, n));
        lemma_split_stream(s.skip(n), t);
        assert(blocks_of(s + t) =~= blocks_of(s) + blocks_of(residue_of(s) + t));
    } else {
        assert(blocks_of(s) + blocks_of(s + t) =~= blocks_of(s + t));
    }
}

/// The bytes of `chunks` joined in order.
pub open spec fn concat_chunks(chunks: Seq<Seq<u8>>) -> Seq<u8>
    decreases chunks.len(),
{
    if chunks.len() == 0 {
        Seq::empty()
    } else {
        chunks[0] + concat_chunks(chunks.skip(1))
    }
}

/// The blocks that come out when `chunks` are fed one after the other to a
/// parser that holds `residue`.
pub open spec fn blocks_fed(residue: Seq<u8>, chunks: Seq<Seq<u8>>) -> Seq<BlockView>
    decreases chunks.len(),
{
    if chunks.len() == 0 {
        Seq::empty()
    } else {
        blocks_of(residue + chunks[0]) + blocks_fed(
            residue_of(residue + chunks[0]),
            chunks.skip(1),
        )
    }
}

/// What the parser holds after `chunks` were fed one after the other to a
/// parser that held `residue`.
pub open spec fn residue_fed(residue: Seq<u8>, chunks: Seq<Seq<u8>>) -> Seq<u8>
    decreases chunks.len(),
{
    if chunks.len() == 0 {
        residue
    } else {
        residue_fed(residue_of(residue + chunks[0]), chunks.skip(1))
    }
}

/// Total reassembly: however a byte sequence is cut into chunks, feeding the
/// chunks in turn yields the same blocks, with the same end-of-message
/// flags, and leaves the same residue as feeding the sequence in one piece.
pub proof fn lemma_total_reassembly(residue: Seq<u8>, chunks: Seq<Seq<u8>>)
    requires
        !has_block(residue),
    ensures
        blocks_fed(residue, chunks) == blocks_of(residue + concat_chunks(chunks)),
        residue_fed(residue, chunks) == residue_of(residue + concat_chunks(chunks)),
    decreases chunks.len(),
{
    if chunks.len() == 0 {
        assert(residue + concat_chunks(chunks) =~= residue);
    } else {
        let head = chunks[0];
        let tail = chunks.skip(1);
        assert(residue + concat_chunks(chunks) =~= (residue + head) + concat_chunks(tail));
        lemma_split_stream(residue + head, concat_chunks(tail));
        lemma_residue_incomplete(residue + head);
        lemma_total_reassembly(residue_of(residue + head), tail);
    }
}

/// Header decoding: a header `lo`, `hi` followed by exactly as many payload
/// bytes as it announces is one block, whose end-of-message flag is bit 0 of
/// the header; parsing goes on with the bytes behind it.
pub proof fn lemma_one_block(lo: u8, hi: u8, payload: Seq<u8>, rest: Seq<u8>)
    requires
        payload.len() == payload_len(header_value(lo, hi)),
    ensures
        blocks_of(seq![lo, hi] + payload + rest) == seq![
            BlockView { payload, last: ends_message(header_value(lo, hi)) },
        ] + blocks_of(rest),
        residue_of(seq![lo, hi] + payload + rest) == residue_of(rest),
{
    let s = seq![lo, hi] + payload + rest;
    assert(s[0] == lo && s[1] == hi);
    assert(has_block(s));
    assert(s.skip(first_block_len(s)) =~= rest);
    assert(s.subrange(2, first_block_len(s)) =~= payload);
}

/// The header bytes of a block with `len` payload bytes, little-endian.
pub open spec fn header_bytes(len: nat, last: bool) -> Seq<u8>
    recommends
        len <= 32767,
{
    let h = 2 * len + if last { 1nat } else { 0nat };
    seq![(h % 256) as u8, (h / 256) as u8]
}

/// The header bytes of a block decode to its length and flag.
pub proof fn lemma_header_bytes(len: nat, last: bool)
    requires
        len <= 32767,
    ensures
        payload_len(header_value(header_bytes(len, last)[0], header_bytes(len, last)[1])) == len,
        ends_message(header_value(header_bytes(len, last)[0], header_bytes(len, last)[1]))
            == last,
{
    let h = 2 * len + if last { 1nat } else { 0nat };
    let hb = header_bytes(len, last);
    assert(header_value(hb[0], hb[1]) == h);
    lemma_payload_len_bound(h as u16);
}

/// Incremental parser state: the bytes of the block under way.
pub struct Blocks {
    buffer: Vec<u8>,
    goal: usize,
    last_block: bool,
}

impl View for Blocks {
    type V = Seq<u8>;

    /// The bytes received since the last block boundary.
    closed spec fn view(&self) -> Seq<u8> {
        self.buffer@
    }
}

impl Blocks {
    /// The buffer length at which the parser next acts: 2 while the header is
    /// incomplete, the block's full length once the header is known.
    pub open spec fn goal_for(s: Seq<u8>) -> int {
        if s.len() < 2 {
            2
        } else {
            first_block_len(s)
        }
    }

    /// The state invariant: the buffer holds no complete block, and `goal`
    /// and `last_block` are the ones its header bytes call for.
    pub closed spec fn wf(&self) -> bool {
        &&& !has_block(self.buffer@)
        &&& self.goal as int == Self::goal_for(self.buffer@)
        &&& self.buffer@.len() >= 2 ==> self.last_block == ends_message(
            header_value(self.buffer@[0], self.buffer@[1]),
        )
    }

    /// The byte count that the buffer has to reach next.
    pub closed spec fn spec_goal(&self) -> int {
        self.goal as int
    }

    /// In a well-formed state the buffer is short of its goal, which is
    /// at least 2, and holds no complete block.
    pub proof fn lemma_wf(&self)
        requires
            self.wf(),
        ensures
            self.spec_goal() >= 2,
            self@.len() < self.spec_goal(),
            self.spec_goal() == Self::goal_for(self@),
            blocks_of(self@) == Seq::<BlockView>::empty(),
            residue_of(self@) == self@,
    {
        if self.buffer@.len() >= 2 {
            lemma_payload_len_bound(header_value(self.buffer@[0], self.buffer@[1]));
        }
    }

    /// A parser at a block boundary, with nothing buffered.
    pub fn new() -> (blocks: Blocks)
        ensures
            blocks.wf(),
            blocks@ == Seq::<u8>::empty(),
            blocks.spec_goal() == 2,
    {
        Blocks { buffer: Vec::with_capacity(8192), goal: 2, last_block: false }
    }

    /// Number of bytes buffered for the block under way.
    pub fn buffered(&self) -> (n: usize)
        ensures
            n == self@.len(),
    {
        self.buffer.len()
    }

    /// Feeds `data` to the parser and returns the blocks that it completes,
    /// in stream order.
    pub fn process(&mut self, data: &[u8]) -> (blocks: Vec<Block>)
        requires
            old(self).wf(),
        ensures
            final(self).wf(),
            block_views(blocks@) == blocks_of(old(self)@ + data@),
            final(self)@ == residue_of(old(self)@ + data@),
    {
        let mut out: Vec<Block> = Vec::new();
        let mut pos: usize = 0;
        assert(data@.skip(0) =~= data@);
        assert(block_views(out@) =~= Seq::<BlockView>::empty());
        while pos < data.len()
            invariant
                pos <= data.len(),
                self.wf(),
                blocks_of(old(self)@ + data@) == block_views(out@) + blocks_of(
                    self@ + data@.skip(pos as int),
                ),
                residue_of(old(self)@ + data@) == residue_of(self@ + data@.skip(pos as int)),
            decreases data.len() - pos,
        {
            let ghost before = self.buffer@;
            let ghost stream = before + data@.skip(pos as int);
            proof {
                if before.len() >= 2 {
                    lemma_payload_len_bound(header_value(before[0], before[1]));
                }
            }
            let to_read: usize = self.goal - self.buffer.len();
            let remaining: usize = data.len() - pos;
            let n: usize = if remaining < to_read {
                remaining
            } else {
                to_read
            };
            self.buffer.extend_from_slice(slice_subrange(data, pos, pos + n));
            pos = pos + n;
            assert(self.buffer@ =~= before + data@.subrange(pos - n, pos as int));
            assert(self.buffer@ + data@.skip(pos as int) =~= stream);
            if self.buffer.len() < self.goal {
                assert(before.len() < 2 ==> self.buffer@.len() < 2);
                continue ;
            }
            if self.goal == 2 {
                let lo: u8 = self.buffer[0];
                let hi: u8 = self.buffer[1];
                let header: u16 = lo as u16 + 256 * (hi as u16);
                proof {
                    lemma_payload_len_bound(header);
                }
                let size: usize = (header >> 1) as usize;
                self.goal = 2 + size;
                self.last_block = (header & 1) == 1;
                if self.goal > 2 {
                    continue ;
                }
            }
            let ghost whole = self.buffer@;
            let len: usize = self.buffer.len();
            let payload: Vec<u8> = slice_to_vec(slice_subrange(self.buffer.as_slice(), 2, len));
            let block = Block { payload, last: self.last_block };
            proof {
                let rest = data@.skip(pos as int);
                assert(stream =~= whole + rest);
                assert(stream[0] == whole[0] && stream[1] == whole[1]);
                assert(first_block_len(stream) == whole.len());
                assert(has_block(stream));
                assert(stream.skip(first_block_len(stream)) =~= rest);
                assert(stream.subrange(2, first_block_len(stream)) =~= whole.subrange(
                    2,
                    whole.len() as int,
                ));
                assert(block@ == first_block(stream));
                assert(block_views(out@.push(block)) =~= block_views(out@) + seq![block@]);
                assert(Seq::<u8>::empty() + rest =~= rest);
            }
            out.push(block);
            self.buffer.clear();
            self.goal = 2;
        }
        proof {
            assert(data@.skip(pos as int) =~= Seq::<u8>::empty());
            assert(self@ + Seq::<u8>::empty() =~= self@);
            self.lemma_wf();
        }
        out
    }

    /// Says how the stream ended, going by what is left in the buffer.
    pub fn describe_eof(&self) -> (phrase: &'static str)
        ensures
            phrase@ == eof_phrase(self@.len()),
    {
        let n: usize = self.buffer.len();
        if n == 0 {
            CLOSE_MESSAGE
        } else if n == 1 {
            "eof on incomplete block header"
        } else {
            "eof on incomplete block body"
        }
    }
}

/// What an observer reports when its side ends the stream at a block boundary.
pub const CLOSE_MESSAGE: &'static str = "closed its side of the connection";

/// The phrase for an end of stream that leaves `residue` bytes of an
/// unfinished block.
pub open spec fn eof_phrase(residue: nat) -> Seq<char> {
    if residue == 0 {
        "closed its side of the connection"@
    } else if residue == 1 {
        "eof on incomplete block header"@
    } else {
        "eof on incomplete block body"@
    }
}

} // verus!
