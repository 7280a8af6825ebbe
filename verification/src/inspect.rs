//! The block inspector: an observer that shows each block as it completes,
//! without a remark on where the message ends and whatever the presenter's
//! setting for binary dumps.

use crate::blocks::block_views;
use crate::blocks::blocks_of;
use crate::blocks::residue_of;
use crate::blocks::Block;
use crate::blocks::BlockView;
use crate::blocks::Blocks;
use crate::formatter::dump_block;
use crate::formatter::is_printable_text;
use crate::formatter::message_line;
use crate::formatter::print_dump;
use crate::formatter::printable_text;
use crate::formatter::remark_views;
use crate::formatter::Formatter;
use crate::formatter::Side;
use vstd::prelude::*;

verus! {

/// The block that shows one payload: text wherever the payload is text.
pub open spec fn inspected_block(side: Side, payload: Seq<u8>) -> Seq<u8> {
    dump_block(side, payload, printable_text(payload), true, Seq::empty())
}

/// The trace of a run of blocks, one rendered block each.
pub open spec fn inspected_blocks(side: Side, blocks: Seq<BlockView>) -> Seq<u8>
    decreases blocks.len(),
{
    if blocks.len() == 0 {
        Seq::empty()
    } else {
        inspected_block(side, blocks[0].payload) + inspected_blocks(side, blocks.skip(1))
    }
}

/// The phrase of the inspector for an end of stream that leaves `residue`
/// bytes of an unfinished block.
pub open spec fn inspector_eof_phrase(residue: nat) -> Seq<char> {
    if residue == 0 {
        "closed its side of the connection"@
    } else if residue == 1 {
        "eof on incomplete header: 1/2"@
    } else {
        "eof on incomplete body"@
    }
}

/// The text of the inspector's error report: what was being done, and the
/// error itself.
pub open spec fn inspector_error_text(kind: Seq<char>, err: Seq<char>) -> Seq<char> {
    "encountered an error "@ + kind + ": "@ + err
}

/// Shows every block of the stream as a message of its own.
pub struct MessageInspector {
    side: Side,
    blocks: Blocks,
}

impl MessageInspector {
    /// An inspector of the blocks of `side`, at a block boundary.
    pub fn new(side: Side) -> (inspector: MessageInspector)
        ensures
            inspector.wf(),
            inspector.side() == side,
            inspector.residue() == Seq::<u8>::empty(),
    {
        MessageInspector { side, blocks: Blocks::new() }
    }

    /// The side that is watched.
    pub closed spec fn side(&self) -> Side {
        self.side
    }

    /// The bytes of the block under way.
    pub closed spec fn residue(&self) -> Seq<u8> {
        self.blocks@
    }

    /// The parser is well formed.
    pub closed spec fn wf(&self) -> bool {
        self.blocks.wf()
    }

    /// Renders one payload as a block.
    fn on_message<F: Formatter>(&self, f: &mut F, data: &[u8])
        requires
            old(f).wf(),
            !old(f).in_block(),
        ensures
            final(f).wf(),
            !final(f).in_block(),
            final(f).at_start(),
            final(f).forced_binary() == old(f).forced_binary(),
            final(f).output() == old(f).output() + inspected_block(self.side(), data@),
    {
        let text = is_printable_text(data);
        let remarks: Vec<&str> = Vec::new();
        assert(remark_views(remarks@) =~= Seq::<Seq<char>>::empty());
        print_dump(f, self.side, data, text, true, remarks.as_slice());
    }

    /// Every block that `data` completes becomes one rendered block.
    pub fn on_data<F: Formatter>(&mut self, f: &mut F, data: &[u8])
        requires
            old(self).wf(),
            old(f).wf(),
            !old(f).in_block(),
        ensures
            final(self).wf(),
            final(self).side() == old(self).side(),
            final(self).residue() == residue_of(old(self).residue() + data@),
            final(f).wf(),
            !final(f).in_block(),
            final(f).at_start(),
            final(f).forced_binary() == old(f).forced_binary(),
            final(f).output() == old(f).output() + inspected_blocks(
                old(self).side(),
                blocks_of(old(self).residue() + data@),
            ),
    {
        let found: Vec<Block> = self.blocks.process(data);
        let ghost all = block_views(found@);
        let ghost goal = old(f).output() + inspected_blocks(self.side, all);
        let mut i: usize = 0;
        assert(all.skip(0) =~= all);
        while i < found.len()
            invariant
                i <= found.len(),
                all == block_views(found@),
                f.wf(),
                !f.in_block(),
                f.forced_binary() == old(f).forced_binary(),
                f.output() + inspected_blocks(self.side, all.skip(i as int)) == goal,
            decreases found.len() - i,
        {
            let block: &Block = &found[i];
            let ghost before = f.output();
            let ghost rest = all.skip(i as int);
            proof {
                assert(rest[0] == found@[i as int]@);
                assert(rest.skip(1) =~= all.skip(i + 1));
            }
            self.on_message(f, block.payload.as_slice());
            proof {
                assert(f.output() + inspected_blocks(self.side, all.skip(i + 1)) =~= before
                    + inspected_blocks(self.side, rest));
            }
            i = i + 1;
        }
        proof {
            assert(f.output() + inspected_blocks(self.side, all.skip(i as int)) =~= f.output());
            f.lemma_outside_block();
        }
    }

    /// The end of the stream is reported with the phrase for what is left
    /// of an unfinished block.
    pub fn on_close<F: Formatter>(&self, f: &mut F)
        requires
            old(f).wf(),
            !old(f).in_block(),
        ensures
            final(f).wf(),
            !final(f).in_block(),
            final(f).at_start(),
            final(f).forced_binary() == old(f).forced_binary(),
            final(f).output() == old(f).output() + message_line(
                self.side(),
                inspector_eof_phrase(self.residue().len()),
            ),
    {
        let n: usize = self.blocks.buffered();
        let msg: &str = if n == 0 {
            "closed its side of the connection"
        } else if n == 1 {
            "eof on incomplete header: 1/2"
        } else {
            "eof on incomplete body"
        };
        f.message(self.side, msg);
    }

    /// An I/O error `err`, met while doing what `kind` names, is reported.
    pub fn on_error<F: Formatter>(&self, f: &mut F, kind: &str, err: &str)
        requires
            old(f).wf(),
            !old(f).in_block(),
        ensures
            final(f).wf(),
            !final(f).in_block(),
            final(f).at_start(),
            final(f).forced_binary() == old(f).forced_binary(),
            final(f).output() == old(f).output() + message_line(
                self.side(),
                inspector_error_text(kind@, err@),
            ),
    {
        let mut msg = String::from_str("encountered an error ");
        msg.append(kind);
        msg.append(": ");
        msg.append(err);
        f.message(self.side, msg.as_str());
    }

    /// An adjustment of the stream is not part of any block: nothing is
    /// shown.
    pub fn on_adjustment<F: Formatter>(&self, f: &mut F, message: &str)
        ensures
            *final(f) == *old(f),
    {
    }
}

} // verus!
