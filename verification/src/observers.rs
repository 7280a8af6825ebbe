//! The observers: what a pump reports its stream to.
//!
//! Each observer watches one side of one connection and renders what it
//! sees through a presenter, at its own level of framing: raw chunks, single
//! blocks, or whole messages.

use crate::blocks::block_views;
use crate::blocks::blocks_of;
use crate::blocks::eof_phrase;
use crate::blocks::residue_of;
use crate::blocks::Block;
use crate::blocks::BlockView;
use crate::blocks::Blocks;
use crate::blocks::CLOSE_MESSAGE;
use crate::formatter::append;
use crate::formatter::message_block;
use crate::formatter::message_line;
use crate::formatter::print_labelled;
use crate::formatter::print_message;
use crate::formatter::remark_views;
use crate::formatter::Formatter;
use crate::formatter::Side;
use crate::proxy::Inspector;
use vstd::prelude::*;

verus! {

/// What went wrong on a stream, as an observer words it: a failed write is
/// named after the peer that the side writes to, a failed read is not.
pub open spec fn error_phrase(side: Side, while_writing: bool) -> Seq<char> {
    if !while_writing {
        "could not be read"@
    } else if side == Side::Client {
        "error writing to server"@
    } else {
        "error writing to client"@
    }
}

/// The phrase for an error on `side`.
pub fn describe_error(side: Side, while_writing: bool) -> (phrase: &'static str)
    ensures
        phrase@ == error_phrase(side, while_writing),
{
    match (side, while_writing) {
        (Side::Client, true) => "error writing to server",
        (Side::Server, true) => "error writing to client",
        (_, false) => "could not be read",
    }
}

/// The text of an error report: the phrase, a colon and the error itself.
pub open spec fn error_text(side: Side, while_writing: bool, err: Seq<char>) -> Seq<char> {
    error_phrase(side, while_writing) + ": "@ + err
}

/// Reports an error on `side` as a one-line event.
fn report_error<F: Formatter>(f: &mut F, side: Side, while_writing: bool, err: &str)
    requires
        old(f).wf(),
        !old(f).in_block(),
    ensures
        final(f).wf(),
        !final(f).in_block(),
        final(f).at_start(),
        final(f).forced_binary() == old(f).forced_binary(),
        final(f).output() == old(f).output() + message_line(
            side,
            error_text(side, while_writing, err@),
        ),
{
    let mut msg = String::from_str(describe_error(side, while_writing));
    msg.append(": ");
    msg.append(err);
    f.message(side, msg.as_str());
}

/// Reports `note`, if there is one, as a one-line event.
fn report_note<F: Formatter>(f: &mut F, side: Side, note: Option<&str>)
    requires
        old(f).wf(),
        !old(f).in_block(),
    ensures
        final(f).wf(),
        !final(f).in_block(),
        final(f).at_start(),
        final(f).forced_binary() == old(f).forced_binary(),
        final(f).output() == old(f).output() + note_line(side, note),
{
    match note {
        Some(m) => {
            f.message(side, m);
        },
        None => {
            proof {
                f.lemma_outside_block();
            }
            assert(f.output() =~= old(f).output() + note_line(side, note));
        },
    }
}

/// The line of an optional note: nothing where there is none.
pub open spec fn note_line(side: Side, note: Option<&str>) -> Seq<u8> {
    match note {
        Some(m) => message_line(side, m@),
        None => Seq::empty(),
    }
}

/// The remark that a block observer adds to a block's header.
pub open spec fn block_remark(last: bool) -> Seq<char> {
    if last {
        "ends the message"@
    } else {
        "does not end the message"@
    }
}

/// The trace of a run of blocks, one rendered block each.
pub open spec fn rendered_blocks(side: Side, blocks: Seq<BlockView>, forced_binary: bool) -> Seq<
    u8,
>
    decreases blocks.len(),
{
    if blocks.len() == 0 {
        Seq::empty()
    } else {
        message_block(
            side,
            blocks[0].payload,
            forced_binary,
            false,
            seq![block_remark(blocks[0].last)],
        ) + rendered_blocks(side, blocks.skip(1), forced_binary)
    }
}

/// The messages that `blocks` complete, given the payload bytes `pending`
/// of the message under way: a message is the payloads up to and including
/// the first block that ends it.
pub open spec fn messages_of(pending: Seq<u8>, blocks: Seq<BlockView>) -> Seq<Seq<u8>>
    decreases blocks.len(),
{
    if blocks.len() == 0 {
        Seq::empty()
    } else if blocks[0].last {
        seq![pending + blocks[0].payload] + messages_of(Seq::empty(), blocks.skip(1))
    } else {
        messages_of(pending + blocks[0].payload, blocks.skip(1))
    }
}

/// The payload bytes of the unfinished message that `blocks` leave behind.
pub open spec fn pending_after(pending: Seq<u8>, blocks: Seq<BlockView>) -> Seq<u8>
    decreases blocks.len(),
{
    if blocks.len() == 0 {
        pending
    } else if blocks[0].last {
        pending_after(Seq::empty(), blocks.skip(1))
    } else {
        pending_after(pending + blocks[0].payload, blocks.skip(1))
    }
}

/// The trace of a run of messages, one rendered block each.
pub open spec fn rendered_messages(side: Side, messages: Seq<Seq<u8>>, forced_binary: bool) -> Seq<
    u8,
>
    decreases messages.len(),
{
    if messages.len() == 0 {
        Seq::empty()
    } else {
        message_block(side, messages[0], forced_binary, true, Seq::empty()) + rendered_messages(
            side,
            messages.skip(1),
            forced_binary,
        )
    }
}

/// The payloads of `blocks` joined in order.
pub open spec fn joined_payloads(blocks: Seq<BlockView>) -> Seq<u8>
    decreases blocks.len(),
{
    if blocks.len() == 0 {
        Seq::empty()
    } else {
        blocks[0].payload + joined_payloads(blocks.skip(1))
    }
}

/// Message reassembly: a run of blocks of which only the last one ends the
/// message is exactly one message, whose payload is the payloads of the
/// blocks joined in order behind what was pending; nothing stays pending.
pub proof fn lemma_message_reassembly(pending: Seq<u8>, blocks: Seq<BlockView>)
    requires
        blocks.len() > 0,
        forall|i: int| 0 <= i < blocks.len() - 1 ==> !(#[trigger] blocks[i]).last,
        blocks.last().last,
    ensures
        messages_of(pending, blocks) == seq![pending + joined_payloads(blocks)],
        pending_after(pending, blocks) == Seq::<u8>::empty(),
    decreases blocks.len(),
{
    let rest = blocks.skip(1);
    if blocks.len() == 1 {
        assert(joined_payloads(rest) =~= Seq::<u8>::empty());
        assert(messages_of(Seq::empty(), rest) =~= Seq::<Seq<u8>>::empty());
        assert(pending_after(Seq::empty(), rest) =~= Seq::<u8>::empty());
        assert(pending + joined_payloads(blocks) =~= pending + blocks[0].payload);
        assert(messages_of(pending, blocks) =~= seq![pending + joined_payloads(blocks)]);
    } else {
        assert(!blocks[0].last);
        assert forall|i: int| 0 <= i < rest.len() - 1 implies !(#[trigger] rest[i]).last by {
            assert(rest[i] == blocks[i + 1]);
        }
        assert(rest.last() == blocks.last());
        lemma_message_reassembly(pending + blocks[0].payload, rest);
        assert((pending + blocks[0].payload) + joined_payloads(rest) =~= pending
            + joined_payloads(blocks));
    }
}

/// Shows every chunk as read.
pub struct RawObserver {
    side: Side,
}

impl RawObserver {
    /// An observer of the raw chunks of `side`.
    pub fn new(side: Side) -> (o: RawObserver)
        ensures
            o.side() == side,
    {
        RawObserver { side }
    }

    /// The side that is watched.
    pub closed spec fn side(&self) -> Side {
        self.side
    }
}

impl Inspector for RawObserver {
    open spec fn wf(&self) -> bool {
        true
    }

    /// The chunk `data` becomes one block, text or binary.
    fn on_data<F: Formatter>(&mut self, f: &mut F, data: &[u8])
        ensures
            final(self).side() == old(self).side(),
            final(f).at_start(),
            final(f).output() == old(f).output() + message_block(
                old(self).side(),
                data@,
                old(f).forced_binary(),
                false,
                Seq::empty(),
            ),
    {
        let remarks: Vec<&str> = Vec::new();
        assert(remark_views(remarks@) =~= Seq::<Seq<char>>::empty());
        print_message(f, self.side, data, remarks.as_slice());
    }

    /// The end of the stream is reported as a clean close.
    fn on_close<F: Formatter>(&mut self, f: &mut F)
        ensures
            final(self).side() == old(self).side(),
            final(f).at_start(),
            final(f).output() == old(f).output() + message_line(old(self).side(), CLOSE_MESSAGE@),
    {
        f.message(self.side, CLOSE_MESSAGE);
    }

    /// The error is reported with the phrase for it.
    fn on_error<F: Formatter>(&mut self, f: &mut F, while_writing: bool, err: &str)
        ensures
            final(self).side() == old(self).side(),
            final(f).at_start(),
            final(f).output() == old(f).output() + message_line(
                old(self).side(),
                error_text(old(self).side(), while_writing, err@),
            ),
    {
        report_error(f, self.side, while_writing, err);
    }

    /// The fixup byte that the pipeline took out, if any, is shown as a
    /// block of its own; then the note is reported, if there is one.
    fn on_unix0<F: Formatter>(&mut self, f: &mut F, data: &[u8], note: Option<&str>)
        ensures
            final(self).side() == old(self).side(),
            final(f).at_start(),
            final(f).output() == old(f).output() + (if data@.len() > 0 {
                message_block(old(self).side(), data@, old(f).forced_binary(), false, Seq::empty())
            } else {
                Seq::empty()
            }) + note_line(old(self).side(), note),
    {
        if data.len() > 0 {
            self.on_data(f, data);
        }
        report_note(f, self.side, note);
        assert(f.output() =~= old(f).output() + (if data@.len() > 0 {
            message_block(self.side(), data@, old(f).forced_binary(), false, Seq::empty())
        } else {
            Seq::empty()
        }) + note_line(self.side(), note));
    }
}

/// Shows every block of the stream.
pub struct BlockObserver {
    side: Side,
    blocks: Blocks,
}

impl BlockObserver {
    /// An observer of the blocks of `side`, at a block boundary.
    pub fn new(side: Side) -> (o: BlockObserver)
        ensures
            o.wf(),
            o.side() == side,
            o.residue() == Seq::<u8>::empty(),
    {
        BlockObserver { side, blocks: Blocks::new() }
    }

    /// The side that is watched.
    pub closed spec fn side(&self) -> Side {
        self.side
    }

    /// The bytes of the block under way.
    pub closed spec fn residue(&self) -> Seq<u8> {
        self.blocks@
    }
}

impl Inspector for BlockObserver {
    /// The parser is well formed.
    closed spec fn wf(&self) -> bool {
        self.blocks.wf()
    }

    /// Every block that `data` completes becomes one rendered block, with a
    /// remark that says whether it ends the message.
    fn on_data<F: Formatter>(&mut self, f: &mut F, data: &[u8])
        ensures
            final(self).side() == old(self).side(),
            final(self).residue() == residue_of(old(self).residue() + data@),
            final(f).at_start(),
            final(f).output() == old(f).output() + rendered_blocks(
                old(self).side(),
                blocks_of(old(self).residue() + data@),
                old(f).forced_binary(),
            ),
    {
        let found: Vec<Block> = self.blocks.process(data);
        let ghost all = block_views(found@);
        let mut i: usize = 0;
        assert(all.skip(0) =~= all);
        assert(f.output() + rendered_blocks(self.side, all, f.forced_binary()) =~= old(f).output()
            + rendered_blocks(self.side, all, f.forced_binary()));
        while i < found.len()
            invariant
                i <= found.len(),
                all == block_views(found@),
                f.wf(),
                !f.in_block(),
                f.forced_binary() == old(f).forced_binary(),
                f.output() + rendered_blocks(self.side, all.skip(i as int), f.forced_binary())
                    == old(f).output() + rendered_blocks(self.side, all, f.forced_binary()),
            decreases found.len() - i,
        {
            let block: &Block = &found[i];
            let remark: &str = if block.last {
                "ends the message"
            } else {
                "does not end the message"
            };
            let mut remarks: Vec<&str> = Vec::new();
            remarks.push(remark);
            let ghost before = f.output();
            let ghost rest = all.skip(i as int);
            proof {
                assert(rest[0] == found@[i as int]@);
                assert(rest.skip(1) =~= all.skip(i + 1));
                assert(remark_views(remarks@) =~= seq![
                    block_remark(block.last),
                ]);
            }
            print_message(f, self.side, block.payload.as_slice(), remarks.as_slice());
            proof {
                assert(f.output() + rendered_blocks(
                    self.side,
                    all.skip(i + 1),
                    f.forced_binary(),
                ) =~= before + rendered_blocks(self.side, rest, f.forced_binary()));
            }
            i = i + 1;
        }
        assert(f.output() + rendered_blocks(self.side, all.skip(i as int), f.forced_binary())
            =~= f.output());
        proof {
            f.lemma_outside_block();
        }
    }

    /// The end of the stream is reported with the phrase for what is left
    /// of an unfinished block.
    fn on_close<F: Formatter>(&mut self, f: &mut F)
        ensures
            *final(self) == *old(self),
            final(f).at_start(),
            final(f).output() == old(f).output() + message_line(
                old(self).side(),
                eof_phrase(old(self).residue().len()),
            ),
    {
        let phrase = self.blocks.describe_eof();
        f.message(self.side, phrase);
    }

    /// An I/O error `err` is reported with the phrase for it.
    fn on_error<F: Formatter>(&mut self, f: &mut F, while_writing: bool, err: &str)
        ensures
            *final(self) == *old(self),
            final(f).at_start(),
            final(f).output() == old(f).output() + message_line(
                old(self).side(),
                error_text(old(self).side(), while_writing, err@),
            ),
    {
        report_error(f, self.side, while_writing, err);
    }

    /// The fixup byte is not shown; the note is reported, if there is one.
    fn on_unix0<F: Formatter>(&mut self, f: &mut F, data: &[u8], note: Option<&str>)
        ensures
            *final(self) == *old(self),
            final(f).at_start(),
            final(f).output() == old(f).output() + note_line(old(self).side(), note),
    {
        report_note(f, self.side, note);
    }
}

/// Shows every whole message of the stream.
pub struct MessageObserver {
    side: Side,
    blocks: Blocks,
    message: Vec<u8>,
}

impl MessageObserver {
    /// An observer of the messages of `side`, at a message boundary.
    pub fn new(side: Side) -> (o: MessageObserver)
        ensures
            o.wf(),
            o.side() == side,
            o.residue() == Seq::<u8>::empty(),
            o.pending() == Seq::<u8>::empty(),
    {
        MessageObserver { side, blocks: Blocks::new(), message: Vec::new() }
    }

    /// The side that is watched.
    pub closed spec fn side(&self) -> Side {
        self.side
    }

    /// The bytes of the block under way.
    pub closed spec fn residue(&self) -> Seq<u8> {
        self.blocks@
    }

    /// The payload bytes of the message under way.
    pub closed spec fn pending(&self) -> Seq<u8> {
        self.message@
    }
}

impl Inspector for MessageObserver {
    /// The parser is well formed.
    closed spec fn wf(&self) -> bool {
        self.blocks.wf()
    }

    /// The payloads of the blocks that `data` completes are gathered, and
    /// every message that one of them ends becomes one rendered block.
    fn on_data<F: Formatter>(&mut self, f: &mut F, data: &[u8])
        ensures
            final(self).side() == old(self).side(),
            final(self).residue() == residue_of(old(self).residue() + data@),
            final(self).pending() == pending_after(
                old(self).pending(),
                blocks_of(old(self).residue() + data@),
            ),
            final(f).at_start(),
            final(f).output() == old(f).output() + rendered_messages(
                old(self).side(),
                messages_of(old(self).pending(), blocks_of(old(self).residue() + data@)),
                old(f).forced_binary(),
            ),
    {
        let found: Vec<Block> = self.blocks.process(data);
        let ghost all = block_views(found@);
        let ghost forced = f.forced_binary();
        let ghost side = self.side;
        let ghost parser = self.blocks;
        let ghost goal = old(f).output() + rendered_messages(
            side,
            messages_of(old(self).message@, all),
            forced,
        );
        let remarks: Vec<&str> = Vec::new();
        assert(remark_views(remarks@) =~= Seq::<Seq<char>>::empty());
        let mut i: usize = 0;
        assert(all.skip(0) =~= all);
        while i < found.len()
            invariant
                i <= found.len(),
                all == block_views(found@),
                side == self.side,
                self.blocks == parser,
                remark_views(remarks@) == Seq::<Seq<char>>::empty(),
                f.wf(),
                !f.in_block(),
                f.forced_binary() == forced,
                f.output() + rendered_messages(
                    side,
                    messages_of(self.message@, all.skip(i as int)),
                    forced,
                ) == goal,
                pending_after(self.message@, all.skip(i as int)) == pending_after(
                    old(self).message@,
                    all,
                ),
            decreases found.len() - i,
        {
            let block: &Block = &found[i];
            let ghost before = f.output();
            let ghost rest = all.skip(i as int);
            let ghost gathered = self.message@;
            proof {
                assert(rest[0] == found@[i as int]@);
                assert(rest.skip(1) =~= all.skip(i + 1));
            }
            append(&mut self.message, block.payload.as_slice());
            if block.last {
                print_labelled(f, self.side, self.message.as_slice(), true, remarks.as_slice());
                proof {
                    let msgs = messages_of(gathered, rest);
                    assert(msgs[0] == gathered + rest[0].payload);
                    assert(msgs.skip(1) =~= messages_of(Seq::empty(), rest.skip(1)));
                    assert(f.output() + rendered_messages(side, msgs.skip(1), forced) =~= before
                        + rendered_messages(side, msgs, forced));
                }
                self.message.clear();
            }
            i = i + 1;
        }
        proof {
            assert(all.skip(i as int).len() == 0);
            assert(f.output() + rendered_messages(
                side,
                messages_of(self.message@, all.skip(i as int)),
                forced,
            ) =~= f.output());
            f.lemma_outside_block();
        }
    }

    /// The end of the stream is reported with the phrase for what is left
    /// of an unfinished block.
    fn on_close<F: Formatter>(&mut self, f: &mut F)
        ensures
            *final(self) == *old(self),
            final(f).at_start(),
            final(f).output() == old(f).output() + message_line(
                old(self).side(),
                eof_phrase(old(self).residue().len()),
            ),
    {
        let phrase = self.blocks.describe_eof();
        f.message(self.side, phrase);
    }

    /// An I/O error `err` is reported with the phrase for it.
    fn on_error<F: Formatter>(&mut self, f: &mut F, while_writing: bool, err: &str)
        ensures
            *final(self) == *old(self),
            final(f).at_start(),
            final(f).output() == old(f).output() + message_line(
                old(self).side(),
                error_text(old(self).side(), while_writing, err@),
            ),
    {
        report_error(f, self.side, while_writing, err);
    }

    /// The fixup is not part of any message: nothing is shown.
    fn on_unix0<F: Formatter>(&mut self, f: &mut F, data: &[u8], note: Option<&str>)
        ensures
            *final(self) == *old(self),
            *final(f) == *old(f),
    {
    }
}

} // verus!
