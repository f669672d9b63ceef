//! The stream reassembler: a two-phase state machine that turns the
//! backend's incremental records into an ordered fragment feed and a final
//! transcript in which the reasoning segment is fenced by explicit markers.

use vstd::prelude::*;

use crate::parse::{parse_record, parsed_record};
use crate::protocol::{ChatResponse, ChatResponseV, rec_think, rec_answer};

verus! {

/// The marker opening a reasoning segment in the transcript.
pub open spec fn think_open() -> Seq<char> {
    "<think>\n"@
}

/// The marker closing a reasoning segment in the transcript.
pub open spec fn think_close() -> Seq<char> {
    "\n</think>\n"@
}

/// The concatenation of a fragment sequence.
pub open spec fn concat_frags(fs: Seq<Seq<char>>) -> Seq<char>
    decreases fs.len(),
{
    if fs.len() == 0 {
        Seq::empty()
    } else {
        fs.first() + concat_frags(fs.drop_first())
    }
}

/// Concatenation splits over appending fragment sequences.
pub proof fn lemma_concat_frags_add(f1: Seq<Seq<char>>, f2: Seq<Seq<char>>)
    ensures
        concat_frags(f1 + f2) == concat_frags(f1) + concat_frags(f2),
    decreases f1.len(),
{
    if f1.len() == 0 {
        assert(f1 + f2 =~= f2);
        assert(concat_frags(f1) + concat_frags(f2) =~= concat_frags(f2));
    } else {
        assert((f1 + f2).drop_first() =~= f1.drop_first() + f2);
        assert((f1 + f2).first() == f1.first());
        lemma_concat_frags_add(f1.drop_first(), f2);
        assert(concat_frags(f1 + f2) =~= concat_frags(f1) + concat_frags(f2));
    }
}

/// Mathematical value of the reassembler: the current phase (`thinking`
/// means a reasoning segment is open), whether the stream has finished, and
/// the transcript assembled so far.
pub ghost struct ReasmV {
    pub thinking: bool,
    pub done: bool,
    pub transcript: Seq<char>,
}

/// The reassembler's initial state: answering phase, nothing assembled.
pub open spec fn reasm_init() -> ReasmV {
    ReasmV { thinking: false, done: false, transcript: Seq::empty() }
}

/// The fragments one record emits from phase `thinking`: an opening marker
/// when reasoning text arrives outside a reasoning segment, the reasoning
/// text itself, a closing marker when answer text arrives inside one, the
/// answer text itself, and a closing marker when the stream finishes inside
/// one.
pub open spec fn step_fragments(thinking: bool, r: ChatResponseV) -> Seq<Seq<char>> {
    let tfrags = if rec_think(r).len() > 0 {
        if !thinking {
            seq![think_open(), rec_think(r)]
        } else {
            seq![rec_think(r)]
        }
    } else {
        Seq::empty()
    };
    let think2 = if rec_think(r).len() > 0 {
        true
    } else {
        thinking
    };
    let afrags = if rec_answer(r).len() > 0 {
        if think2 {
            seq![think_close(), rec_answer(r)]
        } else {
            seq![rec_answer(r)]
        }
    } else {
        Seq::empty()
    };
    let think3 = if rec_answer(r).len() > 0 {
        false
    } else {
        think2
    };
    let dfrags = if r.done && think3 {
        seq![think_close()]
    } else {
        Seq::empty()
    };
    tfrags + afrags + dfrags
}

/// The phase after one record.
pub open spec fn step_thinking(thinking: bool, r: ChatResponseV) -> bool {
    let think2 = if rec_think(r).len() > 0 {
        true
    } else {
        thinking
    };
    let think3 = if rec_answer(r).len() > 0 {
        false
    } else {
        think2
    };
    if r.done {
        false
    } else {
        think3
    }
}

/// One record's effect on the reassembler: once the stream has finished,
/// further records are ignored.
pub open spec fn reasm_step(m: ReasmV, r: ChatResponseV) -> (ReasmV, Seq<Seq<char>>) {
    if m.done {
        (m, Seq::empty())
    } else {
        let frags = step_fragments(m.thinking, r);
        (
            ReasmV {
                thinking: step_thinking(m.thinking, r),
                done: r.done,
                transcript: m.transcript + concat_frags(frags),
            },
            frags,
        )
    }
}

/// A whole record sequence's effect, with every emitted fragment in order.
pub open spec fn reasm_run(m: ReasmV, recs: Seq<ChatResponseV>) -> (ReasmV, Seq<Seq<char>>)
    decreases recs.len(),
{
    if recs.len() == 0 {
        (m, Seq::empty())
    } else {
        let one = reasm_step(m, recs.first());
        let rest = reasm_run(one.0, recs.drop_first());
        (rest.0, one.1 + rest.1)
    }
}

/// Running one more record equals running the prefix and stepping once.
pub proof fn lemma_reasm_run_push(m: ReasmV, recs: Seq<ChatResponseV>, r: ChatResponseV)
    ensures
        reasm_run(m, recs.push(r)) == ({
            let run = reasm_run(m, recs);
            let one = reasm_step(run.0, r);
            (one.0, run.1 + one.1)
        }),
    decreases recs.len(),
{
    reveal_with_fuel(reasm_run, 3);
    if recs.len() == 0 {
        assert(recs.push(r).drop_first() =~= Seq::<ChatResponseV>::empty());
        assert(recs.push(r).first() == r);
        let one = reasm_step(m, r);
        assert(reasm_run(one.0, recs.push(r).drop_first()) == (
            one.0,
            Seq::<Seq<char>>::empty(),
        ));
        assert(one.1 + Seq::<Seq<char>>::empty() =~= one.1);
        assert(Seq::<Seq<char>>::empty() + one.1 =~= one.1);
    } else {
        assert(recs.push(r).first() == recs.first());
        assert(recs.push(r).drop_first() =~= recs.drop_first().push(r));
        let one = reasm_step(m, recs.first());
        lemma_reasm_run_push(one.0, recs.drop_first(), r);
        let runrest = reasm_run(one.0, recs.drop_first());
        let last = reasm_step(runrest.0, r);
        assert(one.1 + (runrest.1 + last.1) =~= (one.1 + runrest.1) + last.1);
    }
}

/// The transcript a run assembles is exactly the concatenation, in order,
/// of every fragment it emits: what is persisted is byte for byte what was
/// delivered.
pub proof fn lemma_transcript_is_fragment_concat(m: ReasmV, recs: Seq<ChatResponseV>)
    ensures
        reasm_run(m, recs).0.transcript == m.transcript + concat_frags(reasm_run(m, recs).1),
    decreases recs.len(),
{
    if recs.len() == 0 {
        assert(m.transcript + concat_frags(Seq::empty()) =~= m.transcript);
    } else {
        let one = reasm_step(m, recs.first());
        lemma_transcript_is_fragment_concat(one.0, recs.drop_first());
        let rest = reasm_run(one.0, recs.drop_first());
        lemma_concat_frags_add(one.1, rest.1);
        if m.done {
            assert(one.0.transcript =~= m.transcript + concat_frags(one.1));
        }
    }
}

/// The reassembler: feeds on response records, hands back the fragments
/// each record emits, and accumulates the transcript.
pub struct StreamReassembler {
    thinking: bool,
    done: bool,
    transcript: String,
}

impl View for StreamReassembler {
    type V = ReasmV;

    closed spec fn view(&self) -> ReasmV {
        ReasmV { thinking: self.thinking, done: self.done, transcript: self.transcript@ }
    }
}

impl StreamReassembler {
    /// A fresh reassembler in the answering phase.
    pub fn new() -> (r: StreamReassembler)
        ensures
            r@ == reasm_init(),
    {
        let r = StreamReassembler { thinking: false, done: false, transcript: String::new() };
        proof {
            assert(r@.transcript =~= reasm_init().transcript);
        }
        r
    }

    /// Whether a record with the done flag has been seen.
    pub fn is_done(&self) -> (b: bool)
        ensures
            b == self@.done,
    {
        self.done
    }

    /// The transcript assembled so far, markers included.
    pub fn transcript(&self) -> (t: &String)
        ensures
            t@ == self@.transcript,
    {
        &self.transcript
    }

    /// Feeds one record and returns the fragments it emits, in order.
    pub fn feed_record(&mut self, rec: &ChatResponse) -> (frags: Vec<String>)
        ensures
            final(self)@ == reasm_step(old(self)@, rec@).0,
            frags.deep_view() == reasm_step(old(self)@, rec@).1,
    {
        let ghost m0 = self@;
        let mut frags: Vec<String> = Vec::new();
        if self.done {
            proof {
                assert(frags.deep_view() =~= Seq::<Seq<char>>::empty());
            }
            return frags;
        }
        let ghost expected = step_fragments(m0.thinking, rec@);
        match &rec.message {
            Some(msg) => {
                match &msg.thinking {
                    Some(tk) => {
                        if !tk.as_str().is_empty() {
                            if !self.thinking {
                                self.transcript.append("<think>\n");
                                frags.push("<think>\n".to_owned());
                                self.thinking = true;
                            }
                            self.transcript.append(tk.as_str());
                            frags.push(tk.clone());
                        }
                    },
                    None => {},
                }
                if !msg.content.as_str().is_empty() {
                    if self.thinking {
                        self.transcript.append("\n</think>\n");
                        frags.push("\n</think>\n".to_owned());
                        self.thinking = false;
                    }
                    self.transcript.append(msg.content.as_str());
                    frags.push(msg.content.clone());
                }
            },
            None => {},
        }
        if rec.done {
            if self.thinking {
                self.transcript.append("\n</think>\n");
                frags.push("\n</think>\n".to_owned());
                self.thinking = false;
            }
            self.done = true;
        }
        proof {
            assert(frags.deep_view() =~= expected);
            assert(self@.transcript =~= m0.transcript + concat_frags(frags.deep_view())) by {
                lemma_concat_unfold(frags.deep_view());
            }
        }
        frags
    }
}

/// Spells out `concat_frags` on sequences of up to five fragments.
proof fn lemma_concat_unfold(fs: Seq<Seq<char>>)
    requires
        fs.len() <= 5,
    ensures
        fs.len() == 0 ==> concat_frags(fs) == Seq::<char>::empty(),
        fs.len() == 1 ==> concat_frags(fs) == fs[0],
        fs.len() == 2 ==> concat_frags(fs) == fs[0] + fs[1],
        fs.len() == 3 ==> concat_frags(fs) == fs[0] + fs[1] + fs[2],
        fs.len() == 4 ==> concat_frags(fs) == fs[0] + fs[1] + fs[2] + fs[3],
        fs.len() == 5 ==> concat_frags(fs) == fs[0] + fs[1] + fs[2] + fs[3] + fs[4],
{
    reveal_with_fuel(concat_frags, 7);
    if fs.len() == 1 {
        assert(concat_frags(fs) =~= fs[0]);
    } else if fs.len() == 2 {
        assert(fs.drop_first().drop_first() =~= Seq::<Seq<char>>::empty());
        assert(concat_frags(fs) =~= fs[0] + fs[1]);
    } else if fs.len() == 3 {
        assert(fs.drop_first().drop_first().drop_first() =~= Seq::<Seq<char>>::empty());
        assert(concat_frags(fs) =~= fs[0] + fs[1] + fs[2]);
    } else if fs.len() == 4 {
        assert(fs.drop_first().drop_first().drop_first().drop_first() =~= Seq::<
            Seq<char>,
        >::empty());
        assert(concat_frags(fs) =~= fs[0] + fs[1] + fs[2] + fs[3]);
    } else if fs.len() == 5 {
        assert(fs.drop_first().drop_first().drop_first().drop_first().drop_first() =~= Seq::<
            Seq<char>,
        >::empty());
        assert(concat_frags(fs) =~= fs[0] + fs[1] + fs[2] + fs[3] + fs[4]);
    }
}


/// Strips one carriage return from the end of a line, as a newline-split
/// line ending in one came from a CRLF terminator.
pub open spec fn strip_cr(l: Seq<u8>) -> Seq<u8> {
    if l.len() > 0 && l.last() == 13 {
        l.drop_last()
    } else {
        l
    }
}

/// One byte's effect on a newline split: the pair carries the finished
/// lines and the segment still open.
pub open spec fn split_step(acc: (Seq<Seq<u8>>, Seq<u8>), b: u8) -> (Seq<Seq<u8>>, Seq<u8>) {
    if b == 10 {
        (acc.0.push(strip_cr(acc.1)), Seq::empty())
    } else {
        (acc.0, acc.1.push(b))
    }
}

pub open spec fn split_scan(s: Seq<u8>) -> (Seq<Seq<u8>>, Seq<u8>)
    decreases s.len(),
{
    if s.len() == 0 {
        (Seq::empty(), Seq::empty())
    } else {
        split_step(split_scan(s.drop_last()), s.last())
    }
}

/// A transport chunk's lines: newline-separated, a terminating newline
/// optional, a carriage return before a newline dropped.
pub open spec fn split_lines(s: Seq<u8>) -> Seq<Seq<u8>> {
    let sc = split_scan(s);
    if sc.1.len() == 0 {
        sc.0
    } else {
        sc.0.push(sc.1)
    }
}

/// Splits a chunk at newlines.
fn split_chunk_lines(chunk: &[u8]) -> (lines: Vec<Vec<u8>>)
    ensures
        lines.deep_view() == split_lines(chunk@),
{
    let n = chunk.len();
    let mut out: Vec<Vec<u8>> = Vec::new();
    let mut cur: Vec<u8> = Vec::new();
    proof {
        assert(chunk@.take(0) =~= Seq::<u8>::empty());
        assert(out.deep_view() =~= split_scan(chunk@.take(0)).0);
        assert(cur@ =~= split_scan(chunk@.take(0)).1);
    }
    let mut i: usize = 0;
    while i < n
        invariant
            n == chunk@.len(),
            i <= n,
            out.deep_view() == split_scan(chunk@.take(i as int)).0,
            cur@ == split_scan(chunk@.take(i as int)).1,
        decreases n - i,
    {
        let b = chunk[i];
        proof {
            assert(chunk@.take(i as int + 1) =~= chunk@.take(i as int).push(chunk@[i as int]));
            assert(chunk@.take(i as int + 1).drop_last() =~= chunk@.take(i as int));
        }
        if b == 10 {
            if cur.len() > 0 && cur[cur.len() - 1] == 13 {
                let _cr = cur.pop();
            }
            let ghost outdv = out.deep_view();
            let ghost curv = cur@;
            out.push(cur);
            cur = Vec::new();
            proof {
                assert(out.deep_view() =~~= outdv.push(curv));
                assert(cur@ =~= Seq::<u8>::empty());
            }
        } else {
            cur.push(b);
        }
        i += 1;
    }
    proof {
        assert(chunk@.take(n as int) =~= chunk@);
    }
    if cur.len() > 0 {
        let ghost outdv = out.deep_view();
        let ghost curv = cur@;
        out.push(cur);
        proof {
            assert(out.deep_view() =~~= outdv.push(curv));
        }
    }
    out
}

/// One line's effect on the reassembler: empty lines and lines that are not
/// well-formed records are silently discarded.
pub open spec fn line_step(m: ReasmV, line: Seq<u8>) -> (ReasmV, Seq<Seq<char>>) {
    if line.len() == 0 {
        (m, Seq::empty())
    } else {
        match parsed_record(line) {
            Some(rv) => reasm_step(m, rv),
            None => (m, Seq::empty()),
        }
    }
}

/// A whole chunk's lines, applied in order.
pub open spec fn feed_lines_model(m: ReasmV, lines: Seq<Seq<u8>>) -> (ReasmV, Seq<Seq<char>>)
    decreases lines.len(),
{
    if lines.len() == 0 {
        (m, Seq::empty())
    } else {
        let one = line_step(m, lines.first());
        let rest = feed_lines_model(one.0, lines.drop_first());
        (rest.0, one.1 + rest.1)
    }
}

/// Feeding one more line equals feeding the prefix and stepping once.
pub proof fn lemma_feed_lines_push(m: ReasmV, lines: Seq<Seq<u8>>, l: Seq<u8>)
    ensures
        feed_lines_model(m, lines.push(l)) == ({
            let run = feed_lines_model(m, lines);
            let one = line_step(run.0, l);
            (one.0, run.1 + one.1)
        }),
    decreases lines.len(),
{
    reveal_with_fuel(feed_lines_model, 3);
    if lines.len() == 0 {
        assert(lines.push(l).drop_first() =~= Seq::<Seq<u8>>::empty());
        assert(lines.push(l).first() == l);
        let one = line_step(m, l);
        assert(feed_lines_model(one.0, lines.push(l).drop_first()) == (
            one.0,
            Seq::<Seq<char>>::empty(),
        ));
        assert(one.1 + Seq::<Seq<char>>::empty() =~= one.1);
        assert(Seq::<Seq<char>>::empty() + one.1 =~= one.1);
    } else {
        assert(lines.push(l).first() == lines.first());
        assert(lines.push(l).drop_first() =~= lines.drop_first().push(l));
        let one = line_step(m, lines.first());
        lemma_feed_lines_push(one.0, lines.drop_first(), l);
        let runrest = feed_lines_model(one.0, lines.drop_first());
        let last = line_step(runrest.0, l);
        assert(one.1 + (runrest.1 + last.1) =~= (one.1 + runrest.1) + last.1);
    }
}

impl StreamReassembler {
    /// Feeds one transport chunk: splits it at newlines, discards empty and
    /// malformed lines, feeds each well-formed record, and returns every
    /// fragment emitted, in order. Records after the done flag are ignored.
    pub fn feed_chunk(&mut self, chunk: &[u8]) -> (frags: Vec<String>)
        ensures
            final(self)@ == feed_lines_model(old(self)@, split_lines(chunk@)).0,
            frags.deep_view() == feed_lines_model(old(self)@, split_lines(chunk@)).1,
    {
        let ghost m0 = self@;
        let ghost linesv = split_lines(chunk@);
        let lines = split_chunk_lines(chunk);
        let mut frags: Vec<String> = Vec::new();
        let n = lines.len();
        proof {
            assert(linesv.take(0) =~= Seq::<Seq<u8>>::empty());
            assert(frags.deep_view() =~= feed_lines_model(m0, linesv.take(0)).1);
        }
        let mut i: usize = 0;
        while i < n
            invariant
                n == lines@.len(),
                lines.deep_view() == linesv,
                i <= n,
                self@ == feed_lines_model(m0, linesv.take(i as int)).0,
                frags.deep_view() == feed_lines_model(m0, linesv.take(i as int)).1,
            decreases n - i,
        {
            let line = &lines[i];
            proof {
                assert(line@ == linesv[i as int]);
                assert(linesv.take(i as int + 1) =~= linesv.take(i as int).push(
                    linesv[i as int],
                ));
                lemma_feed_lines_push(m0, linesv.take(i as int), linesv[i as int]);
            }
            if line.len() > 0 {
                match parse_record(line.as_slice()) {
                    Some(rec) => {
                        let mut fs = self.feed_record(&rec);
                        let ghost fsdv = fs.deep_view();
                        let ghost f0 = frags.deep_view();
                        frags.append(&mut fs);
                        proof {
                            assert(frags.deep_view() =~= f0 + fsdv);
                        }
                    },
                    None => {},
                }
            }
            i += 1;
        }
        proof {
            assert(linesv.take(n as int) =~= linesv);
        }
        frags
    }
}


} // verus!
