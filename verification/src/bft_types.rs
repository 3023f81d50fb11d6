//! Program model and parser.
//!
//! Source text is scanned character by character; the eight meaningful
//! characters become instructions tagged with their line and column, and
//! matching bracket pairs are resolved to each other's index during the
//! same scan.  A separate validation pass reports the first instruction
//! whose bracket is still unmatched.

use vstd::prelude::*;

verus! {

/// The eight raw commands, each written as a single character in source
/// text, under human readable names.
///
/// `LoopStart` and `LoopTerminate` carry the index of their structural
/// partner within the instruction sequence once the bracket-resolution
/// pass has matched them; an unmatched bracket keeps `None`.
#[derive(Debug, Copy, Clone, PartialEq)]
pub enum BFCharCmdName {
    /// '>' character, move the data pointer one cell to the right
    PointerIncrement,
    /// '<' character, move the data pointer one cell to the left
    PointerDecrement,
    /// '+' character, add one to the byte at the current data pointer
    DataIncrement,
    /// '-' character, subtract one from the byte at the current data pointer
    DataDecrement,
    /// '.' character, output the byte at the current data pointer
    DataOutput,
    /// ',' character, read one byte of input into the current cell
    DataInput,
    /// '[' character, loop start; the payload is the index of its matching
    /// `LoopTerminate`, filled in by bracket resolution
    LoopStart(Option<usize>),
    /// ']' character, loop end; the payload is the index of its matching
    /// `LoopStart`, filled in by bracket resolution
    LoopTerminate(Option<usize>),
}

/// One instruction together with the 1-based line and column of the source
/// character it came from.
#[derive(Debug, Copy, Clone, PartialEq)]
pub struct BFCharInfo {
    pub raw: BFCharCmdName,
    pub line: usize,
    pub column: usize,
}

impl BFCharInfo {
    /// The command alone, without the position.
    pub fn get_raw(&self) -> (r: BFCharCmdName)
        ensures
            r == self.raw,
    {
        self.raw
    }
}

/// Whether a source character is one of the eight meaningful commands.
pub open spec fn is_cmd_char(c: char) -> bool {
    ||| c == '>'
    ||| c == '<'
    ||| c == '+'
    ||| c == '-'
    ||| c == '.'
    ||| c == ','
    ||| c == '['
    ||| c == ']'
}

/// The command a meaningful character stands for, before bracket
/// resolution.
pub open spec fn cmd_of_char(c: char) -> BFCharCmdName {
    if c == '>' {
        BFCharCmdName::PointerIncrement
    } else if c == '<' {
        BFCharCmdName::PointerDecrement
    } else if c == '+' {
        BFCharCmdName::DataIncrement
    } else if c == '-' {
        BFCharCmdName::DataDecrement
    } else if c == '.' {
        BFCharCmdName::DataOutput
    } else if c == ',' {
        BFCharCmdName::DataInput
    } else if c == '[' {
        BFCharCmdName::LoopStart(None)
    } else {
        BFCharCmdName::LoopTerminate(None)
    }
}

/// The parser's state after some prefix of the source: the instructions
/// emitted so far, the indices of the loop starts still waiting for their
/// partner, and the current 1-based line and column.
pub ghost struct ParseState {
    pub instrs: Seq<BFCharInfo>,
    pub stack: Seq<usize>,
    pub line: int,
    pub col: int,
}

/// The state in which a scan begins: nothing emitted, line 1, column 1.
pub open spec fn init_parse_state() -> ParseState {
    ParseState { instrs: Seq::empty(), stack: Seq::empty(), line: 1, col: 1 }
}

/// A position count advanced by one.  It stays put at the machine's
/// largest index, which no string that fits in memory can reach.
pub open spec fn sat_inc(v: int) -> int {
    if v < usize::MAX {
        v + 1
    } else {
        v
    }
}

/// One step of the scan.  A line terminator starts the next line; a
/// meaningful character is emitted (a loop end resolving the innermost
/// open loop start, if any); every other character is skipped.  All
/// characters but the line terminator advance the column.
pub open spec fn parse_char(s: ParseState, c: char) -> ParseState {
    if c == '\n' {
        ParseState { line: sat_inc(s.line), col: 1, ..s }
    } else if !is_cmd_char(c) {
        ParseState { col: sat_inc(s.col), ..s }
    } else {
        let idx = s.instrs.len() as usize;
        let info = BFCharInfo { raw: cmd_of_char(c), line: s.line as usize, column: s.col as usize };
        if c == '[' {
            ParseState {
                instrs: s.instrs.push(info),
                stack: s.stack.push(idx),
                col: sat_inc(s.col),
                ..s
            }
        } else if c == ']' && s.stack.len() > 0 {
            let j = s.stack.last();
            let opened = BFCharInfo { raw: BFCharCmdName::LoopStart(Some(idx)), ..s.instrs[j as int] };
            let closed = BFCharInfo { raw: BFCharCmdName::LoopTerminate(Some(j)), ..info };
            ParseState {
                instrs: s.instrs.update(j as int, opened).push(closed),
                stack: s.stack.drop_last(),
                col: sat_inc(s.col),
                ..s
            }
        } else {
            ParseState { instrs: s.instrs.push(info), col: sat_inc(s.col), ..s }
        }
    }
}

/// The scan folded over the remaining characters.
pub open spec fn parse_from(cs: Seq<char>, s: ParseState) -> ParseState
    decreases cs.len(),
{
    if cs.len() == 0 {
        s
    } else {
        parse_from(cs.drop_first(), parse_char(s, cs[0]))
    }
}

/// The parser's result on whole source text.
pub open spec fn parse(cs: Seq<char>) -> ParseState {
    parse_from(cs, init_parse_state())
}

/// Whether a command's bracket, if it is a bracket, has found its partner.
pub open spec fn resolved(cmd: BFCharCmdName) -> bool {
    match cmd {
        BFCharCmdName::LoopStart(p) => p is Some,
        BFCharCmdName::LoopTerminate(p) => p is Some,
        _ => true,
    }
}

/// Whether every bracket in the sequence has found its partner.
pub open spec fn all_resolved(instrs: Seq<BFCharInfo>) -> bool {
    forall|i: int| 0 <= i < instrs.len() ==> resolved((#[trigger] instrs[i]).raw)
}

/// A resolved partner link at index `i` points inside the sequence, at an
/// instruction of the opposite bracket kind whose own link points back.
pub open spec fn partner_ok(instrs: Seq<BFCharInfo>, i: int) -> bool {
    match instrs[i].raw {
        BFCharCmdName::LoopStart(p) => match p {
            Some(j) => {
                &&& (j as int) < instrs.len()
                &&& instrs[j as int].raw == BFCharCmdName::LoopTerminate(Some(i as usize))
            },
            None => true,
        },
        BFCharCmdName::LoopTerminate(p) => match p {
            Some(j) => {
                &&& (j as int) < instrs.len()
                &&& instrs[j as int].raw == BFCharCmdName::LoopStart(Some(i as usize))
            },
            None => true,
        },
        _ => true,
    }
}

/// Mutual consistency of all resolved partner links.
pub open spec fn partners_wf(instrs: Seq<BFCharInfo>) -> bool {
    forall|i: int| 0 <= i < instrs.len() ==> #[trigger] partner_ok(instrs, i)
}

/// No loop end is left without a partner.
pub open spec fn no_unmatched_close(instrs: Seq<BFCharInfo>) -> bool {
    forall|i: int|
        0 <= i < instrs.len() ==> (#[trigger] instrs[i]).raw != BFCharCmdName::LoopTerminate(None)
}

/// Every index on the stack names an unresolved loop start.
pub open spec fn stack_entries_open(s: ParseState) -> bool {
    forall|k: int|
        0 <= k < s.stack.len() ==> (#[trigger] s.stack[k]) < s.instrs.len()
            && s.instrs[s.stack[k] as int].raw == BFCharCmdName::LoopStart(None)
}

/// The stack holds strictly increasing indices.
pub open spec fn stack_increasing(s: ParseState) -> bool {
    forall|k1: int, k2: int|
        0 <= k1 < k2 < s.stack.len() ==> #[trigger] s.stack[k1] < #[trigger] s.stack[k2]
}

/// Every unresolved loop start is on the stack.
pub open spec fn unresolved_opens_on_stack(s: ParseState) -> bool {
    forall|i: int|
        0 <= i < s.instrs.len() && (#[trigger] s.instrs[i]).raw == BFCharCmdName::LoopStart(None)
            ==> exists|k: int| 0 <= k < s.stack.len() && s.stack[k] == i
}

/// What the scan maintains: the stack is exactly the set of unresolved
/// loop starts, in increasing order, and all resolved links are mutually
/// consistent.
pub open spec fn stack_inv(s: ParseState) -> bool {
    &&& stack_entries_open(s)
    &&& stack_increasing(s)
    &&& unresolved_opens_on_stack(s)
    &&& partners_wf(s.instrs)
}

/// One scan step keeps the stack discipline intact.
proof fn lemma_parse_char_inv(s: ParseState, c: char)
    requires
        stack_inv(s),
        s.instrs.len() < usize::MAX,
    ensures
        stack_inv(parse_char(s, c)),
        parse_char(s, c).instrs.len() <= s.instrs.len() + 1,
        parse_char(s, c).stack.len() <= s.stack.len() + 1,
{
    let t = parse_char(s, c);
    if c == '\n' || !is_cmd_char(c) {
    } else {
        let idx = s.instrs.len() as usize;
        if c == '[' {
            assert forall|i: int|
                0 <= i < t.instrs.len() && (#[trigger] t.instrs[i]).raw == BFCharCmdName::LoopStart(
                    None,
                ) implies exists|k: int| 0 <= k < t.stack.len() && t.stack[k] == i by {
                if i < s.instrs.len() {
                    let k = choose|k: int| 0 <= k < s.stack.len() && s.stack[k] == i;
                    assert(t.stack[k] == i);
                } else {
                    assert(t.stack[s.stack.len() as int] == i);
                }
            }
            assert forall|i: int| 0 <= i < t.instrs.len() implies #[trigger] partner_ok(
                t.instrs,
                i,
            ) by {
                if i < s.instrs.len() {
                    assert(partner_ok(s.instrs, i));
                }
            }
        } else if c == ']' && s.stack.len() > 0 {
            let j = s.stack.last();
            let ji = j as int;
            assert(s.stack[s.stack.len() - 1] == j);
            assert(s.instrs[ji].raw == BFCharCmdName::LoopStart(None));
            // no resolved link in `s` points at `j`, because `j` is unresolved
            assert forall|k: int| 0 <= k < t.stack.len() implies (#[trigger] t.stack[k])
                < t.instrs.len() && t.instrs[t.stack[k] as int].raw == BFCharCmdName::LoopStart(
                None,
            ) by {
                assert(t.stack[k] == s.stack[k]);
                assert(s.stack[k] < j);
            }
            assert forall|i: int|
                0 <= i < t.instrs.len() && (#[trigger] t.instrs[i]).raw == BFCharCmdName::LoopStart(
                    None,
                ) implies exists|k: int| 0 <= k < t.stack.len() && t.stack[k] == i by {
                assert(i != ji);
                assert(i < s.instrs.len());
                assert(s.instrs[i].raw == BFCharCmdName::LoopStart(None));
                let k = choose|k: int| 0 <= k < s.stack.len() && s.stack[k] == i;
                assert(k != s.stack.len() - 1);
                assert(t.stack[k] == i);
            }
            assert forall|i: int| 0 <= i < t.instrs.len() implies #[trigger] partner_ok(
                t.instrs,
                i,
            ) by {
                if i == idx as int {
                    assert(t.instrs[i].raw == BFCharCmdName::LoopTerminate(Some(j)));
                    assert(t.instrs[ji].raw == BFCharCmdName::LoopStart(Some(idx)));
                } else if i == ji {
                    assert(t.instrs[idx as int].raw == BFCharCmdName::LoopTerminate(Some(j)));
                } else {
                    assert(partner_ok(s.instrs, i));
                    match s.instrs[i].raw {
                        BFCharCmdName::LoopStart(p) => {
                            if p is Some {
                                let p0 = p->0;
                                assert(s.instrs[p0 as int].raw == BFCharCmdName::LoopTerminate(
                                    Some(i as usize),
                                ));
                                assert(p0 as int != ji);
                                assert(t.instrs[p0 as int] == s.instrs[p0 as int]);
                            }
                        },
                        BFCharCmdName::LoopTerminate(p) => {
                            if p is Some {
                                let p0 = p->0;
                                assert(s.instrs[p0 as int].raw == BFCharCmdName::LoopStart(
                                    Some(i as usize),
                                ));
                                assert(p0 as int != ji);
                                assert(t.instrs[p0 as int] == s.instrs[p0 as int]);
                            }
                        },
                        _ => {},
                    }
                }
            }
        } else {
            // a bracketless command, or a loop end with nothing open
            assert forall|i: int|
                0 <= i < t.instrs.len() && (#[trigger] t.instrs[i]).raw == BFCharCmdName::LoopStart(
                    None,
                ) implies exists|k: int| 0 <= k < t.stack.len() && t.stack[k] == i by {
                assert(i < s.instrs.len());
                let k = choose|k: int| 0 <= k < s.stack.len() && s.stack[k] == i;
                assert(t.stack[k] == i);
            }
            assert forall|i: int| 0 <= i < t.instrs.len() implies #[trigger] partner_ok(
                t.instrs,
                i,
            ) by {
                if i < s.instrs.len() {
                    assert(partner_ok(s.instrs, i));
                }
            }
        }
    }
}

/// The scan keeps the stack discipline intact over any run of characters,
/// and emits at most one instruction per character.
proof fn lemma_parse_from_inv(cs: Seq<char>, s: ParseState)
    requires
        stack_inv(s),
        s.instrs.len() + cs.len() <= usize::MAX,
    ensures
        stack_inv(parse_from(cs, s)),
        parse_from(cs, s).instrs.len() <= s.instrs.len() + cs.len(),
    decreases cs.len(),
{
    if cs.len() > 0 {
        lemma_parse_char_inv(s, cs[0]);
        lemma_parse_from_inv(cs.drop_first(), parse_char(s, cs[0]));
    }
}

/// Once a loop end is recorded without a partner, the rest of the scan
/// never resolves it: resolution only ever rewrites loop starts taken
/// from the stack.
proof fn lemma_parse_from_keeps_unmatched_close(cs: Seq<char>, s: ParseState, i: int)
    requires
        stack_inv(s),
        s.instrs.len() + cs.len() <= usize::MAX,
        0 <= i < s.instrs.len(),
        s.instrs[i].raw == BFCharCmdName::LoopTerminate(None),
    ensures
        i < parse_from(cs, s).instrs.len(),
        parse_from(cs, s).instrs[i].raw == BFCharCmdName::LoopTerminate(None),
    decreases cs.len(),
{
    if cs.len() > 0 {
        let t = parse_char(s, cs[0]);
        lemma_parse_char_inv(s, cs[0]);
        assert(t.instrs[i].raw == BFCharCmdName::LoopTerminate(None));
        lemma_parse_from_keeps_unmatched_close(cs.drop_first(), t, i);
    }
}

/// Every loop end recorded without a partner lies before every loop start
/// still waiting on the stack.
pub open spec fn closes_before_stack(s: ParseState) -> bool {
    forall|i: int, k: int|
        (0 <= i < s.instrs.len() && 0 <= k < s.stack.len() && (#[trigger] s.instrs[i]).raw
            == BFCharCmdName::LoopTerminate(None)) ==> i < #[trigger] s.stack[k]
}

/// One scan step keeps unmatched closes before the waiting loop starts.
proof fn lemma_parse_char_closes_before(s: ParseState, c: char)
    requires
        stack_inv(s),
        closes_before_stack(s),
        s.instrs.len() < usize::MAX,
    ensures
        closes_before_stack(parse_char(s, c)),
{
    let t = parse_char(s, c);
    if c == '\n' || !is_cmd_char(c) {
    } else if c == '[' {
        assert forall|i: int, k: int|
            (0 <= i < t.instrs.len() && 0 <= k < t.stack.len() && (#[trigger] t.instrs[i]).raw
                == BFCharCmdName::LoopTerminate(None)) implies i < #[trigger] t.stack[k] by {
            assert(i < s.instrs.len());
            if k < s.stack.len() {
                assert(s.stack[k] == t.stack[k]);
            } else {
                assert(t.stack[k] == s.instrs.len() as usize);
            }
        }
    } else if c == ']' && s.stack.len() > 0 {
        let j = s.stack.last();
        assert(s.instrs[j as int].raw == BFCharCmdName::LoopStart(None));
        assert forall|i: int, k: int|
            (0 <= i < t.instrs.len() && 0 <= k < t.stack.len() && (#[trigger] t.instrs[i]).raw
                == BFCharCmdName::LoopTerminate(None)) implies i < #[trigger] t.stack[k] by {
            assert(t.stack[k] == s.stack[k]);
            assert(i != j as int);
            assert(i < s.instrs.len());
            assert(s.instrs[i].raw == BFCharCmdName::LoopTerminate(None));
        }
    } else {
        assert forall|i: int, k: int|
            (0 <= i < t.instrs.len() && 0 <= k < t.stack.len() && (#[trigger] t.instrs[i]).raw
                == BFCharCmdName::LoopTerminate(None)) implies i < #[trigger] t.stack[k] by {
            assert(t.stack[k] == s.stack[k]);
            if i < s.instrs.len() {
            } else {
                // a fresh loop end with nothing open: the stack is empty
                assert(c == ']' && s.stack.len() == 0);
                assert(false);
            }
        }
    }
}

/// The whole scan keeps unmatched closes before the waiting loop starts.
proof fn lemma_parse_from_closes_before(cs: Seq<char>, s: ParseState)
    requires
        stack_inv(s),
        closes_before_stack(s),
        s.instrs.len() + cs.len() <= usize::MAX,
    ensures
        closes_before_stack(parse_from(cs, s)),
    decreases cs.len(),
{
    if cs.len() > 0 {
        lemma_parse_char_inv(s, cs[0]);
        lemma_parse_char_closes_before(s, cs[0]);
        lemma_parse_from_closes_before(cs.drop_first(), parse_char(s, cs[0]));
    }
}

/// Law: in a parsed program, every unmatched loop end lies before every
/// unmatched loop start, so validation, which reports the first
/// unresolved instruction, reports an unmatched close whenever the source
/// has one, and an unmatched open only when it has none.
pub proof fn lemma_unmatched_close_reported_first(cs: Seq<char>)
    requires
        cs.len() <= usize::MAX,
    ensures
        forall|i: int, j: int|
            (0 <= i < parse(cs).instrs.len() && 0 <= j < parse(cs).instrs.len() && (
            #[trigger] parse(cs).instrs[i]).raw == BFCharCmdName::LoopTerminate(None) && (
            #[trigger] parse(cs).instrs[j]).raw == BFCharCmdName::LoopStart(None)) ==> i < j,
{
    lemma_parse_from_inv(cs, init_parse_state());
    lemma_parse_from_closes_before(cs, init_parse_state());
    let t = parse(cs);
    assert forall|i: int, j: int|
        (0 <= i < t.instrs.len() && 0 <= j < t.instrs.len() && (#[trigger] t.instrs[i]).raw
            == BFCharCmdName::LoopTerminate(None) && (#[trigger] t.instrs[j]).raw
            == BFCharCmdName::LoopStart(None)) implies i < j by {
        let k = choose|k: int| 0 <= k < t.stack.len() && t.stack[k] == j;
        assert(i < t.stack[k]);
    }
}

/// Whether the bracket characters of `cs` are balanced when `d` loops are
/// already open: the depth never drops below zero and ends at zero.
pub open spec fn bal(cs: Seq<char>, d: int) -> bool
    decreases cs.len(),
{
    if cs.len() == 0 {
        d == 0
    } else if cs[0] == '[' {
        bal(cs.drop_first(), d + 1)
    } else if cs[0] == ']' {
        d > 0 && bal(cs.drop_first(), d - 1)
    } else {
        bal(cs.drop_first(), d)
    }
}

/// Whether the bracket characters of whole source text are balanced.
pub open spec fn balanced(cs: Seq<char>) -> bool {
    bal(cs, 0)
}

/// Scanning balanced remaining text from a state with one open loop per
/// unit of depth, and no unmatched close so far, resolves everything.
proof fn lemma_bal_resolves(cs: Seq<char>, s: ParseState, d: int)
    requires
        stack_inv(s),
        s.stack.len() == d,
        bal(cs, d),
        no_unmatched_close(s.instrs),
        s.instrs.len() + cs.len() <= usize::MAX,
    ensures
        all_resolved(parse_from(cs, s).instrs),
    decreases cs.len(),
{
    if cs.len() == 0 {
        assert forall|i: int| 0 <= i < s.instrs.len() implies resolved(
            (#[trigger] s.instrs[i]).raw,
        ) by {
            if s.instrs[i].raw == BFCharCmdName::LoopStart(None) {
                let k = choose|k: int| 0 <= k < s.stack.len() && s.stack[k] == i;
                assert(false);
            }
        }
    } else {
        let c = cs[0];
        let t = parse_char(s, c);
        lemma_parse_char_inv(s, c);
        if c == '[' {
            assert(t.instrs[s.instrs.len() as int].raw == BFCharCmdName::LoopStart(None));
            lemma_bal_resolves(cs.drop_first(), t, d + 1);
        } else if c == ']' {
            assert(s.stack.len() > 0);
            assert(t.instrs[s.instrs.len() as int].raw == BFCharCmdName::LoopTerminate(
                Some(s.stack.last()),
            ));
            lemma_bal_resolves(cs.drop_first(), t, d - 1);
        } else {
            lemma_bal_resolves(cs.drop_first(), t, d);
        }
    }
}

/// Scanning unbalanced remaining text from a state with one open loop per
/// unit of depth leaves some bracket unresolved.
proof fn lemma_unbal_unresolved(cs: Seq<char>, s: ParseState, d: int)
    requires
        stack_inv(s),
        s.stack.len() == d,
        !bal(cs, d),
        s.instrs.len() + cs.len() <= usize::MAX,
    ensures
        !all_resolved(parse_from(cs, s).instrs),
    decreases cs.len(),
{
    if cs.len() == 0 {
        assert(d != 0);
        assert(s.stack[0] < s.instrs.len());
        assert(!resolved(s.instrs[s.stack[0] as int].raw));
    } else {
        let c = cs[0];
        let t = parse_char(s, c);
        lemma_parse_char_inv(s, c);
        if c == '[' {
            lemma_unbal_unresolved(cs.drop_first(), t, d + 1);
        } else if c == ']' {
            if d > 0 {
                lemma_unbal_unresolved(cs.drop_first(), t, d - 1);
            } else {
                let idx = s.instrs.len() as int;
                assert(t.instrs[idx].raw == BFCharCmdName::LoopTerminate(None));
                lemma_parse_from_keeps_unmatched_close(cs.drop_first(), t, idx);
                assert(!resolved(parse_from(cs.drop_first(), t).instrs[idx].raw));
            }
        } else {
            lemma_unbal_unresolved(cs.drop_first(), t, d);
        }
    }
}

/// Law: for balanced source text, validation succeeds — every bracket of
/// the parsed program is resolved — and every loop start's partner is a
/// loop end whose own partner points back at it, and the other way round.
pub proof fn lemma_balanced_source_resolves(cs: Seq<char>)
    requires
        balanced(cs),
        cs.len() <= usize::MAX,
    ensures
        all_resolved(parse(cs).instrs),
        partners_wf(parse(cs).instrs),
        forall|i: int|
            0 <= i < parse(cs).instrs.len() ==> ((#[trigger] parse(cs).instrs[i]).raw matches
            BFCharCmdName::LoopStart(p) ==> p matches Some(j) && (j as int) < parse(
                cs,
            ).instrs.len() && parse(cs).instrs[j as int].raw == BFCharCmdName::LoopTerminate(
                Some(i as usize),
            )),
        forall|i: int|
            0 <= i < parse(cs).instrs.len() ==> ((#[trigger] parse(cs).instrs[i]).raw matches
            BFCharCmdName::LoopTerminate(p) ==> p matches Some(j) && (j as int) < parse(
                cs,
            ).instrs.len() && parse(cs).instrs[j as int].raw == BFCharCmdName::LoopStart(
                Some(i as usize),
            )),
{
    lemma_bal_resolves(cs, init_parse_state(), 0);
    lemma_parse_from_inv(cs, init_parse_state());
    let instrs = parse(cs).instrs;
    assert forall|i: int| 0 <= i < instrs.len() implies ((#[trigger] instrs[i]).raw matches
    BFCharCmdName::LoopStart(p) ==> p matches Some(j) && (j as int) < instrs.len()
        && instrs[j as int].raw == BFCharCmdName::LoopTerminate(Some(i as usize))) by {
        assert(partner_ok(instrs, i));
        assert(resolved(instrs[i].raw));
    }
    assert forall|i: int| 0 <= i < instrs.len() implies ((#[trigger] instrs[i]).raw matches
    BFCharCmdName::LoopTerminate(p) ==> p matches Some(j) && (j as int) < instrs.len()
        && instrs[j as int].raw == BFCharCmdName::LoopStart(Some(i as usize))) by {
        assert(partner_ok(instrs, i));
        assert(resolved(instrs[i].raw));
    }
}

/// Law: for source text with an unmatched bracket of either kind,
/// validation fails: some bracket of the parsed program is unresolved,
/// so `match_square_bracket` reports the first of them, with the line
/// and column the scan recorded for it.
pub proof fn lemma_unbalanced_source_fails(cs: Seq<char>)
    requires
        !balanced(cs),
        cs.len() <= usize::MAX,
    ensures
        !all_resolved(parse(cs).instrs),
{
    lemma_unbal_unresolved(cs, init_parse_state(), 0);
}

/// The two ways validation can fail, each carrying the offending
/// instruction with its source position.
#[derive(Debug, Copy, Clone, PartialEq)]
pub enum BFBracketErr {
    /// A loop start with no matching loop end.
    UnmatchedOpen(BFCharInfo),
    /// A loop end with no matching loop start.
    UnmatchedClose(BFCharInfo),
}

/// The validation error an unmatched instruction is reported as.
pub open spec fn bracket_err_of(info: BFCharInfo) -> BFBracketErr {
    match info.raw {
        BFCharCmdName::LoopStart(_) => BFBracketErr::UnmatchedOpen(info),
        _ => BFBracketErr::UnmatchedClose(info),
    }
}

/// A program: an identifying name, used only for diagnostics, and the
/// ordered instruction sequence built from the source text.
#[derive(Debug)]
pub struct BFProgram {
    filename: String,
    instructions: Vec<BFCharInfo>,
}

impl View for BFProgram {
    type V = Seq<BFCharInfo>;

    closed spec fn view(&self) -> Seq<BFCharInfo> {
        self.instructions@
    }
}

impl BFProgram {
    /// Every resolved partner link points inside the sequence, at an
    /// instruction of the opposite bracket kind that points back.  The
    /// scan establishes this for every program it builds.
    #[verifier::type_invariant]
    pub open spec fn wf(self) -> bool {
        partners_wf(self@)
    }

    /// The identifying name the program was built with.
    pub closed spec fn spec_filename(self) -> Seq<char> {
        self.filename@
    }

    /// Scan `bf_str`, emitting one instruction per meaningful character
    /// and resolving matched bracket pairs to each other's index.
    pub fn new(path: &str, bf_str: &str) -> (r: BFProgram)
        ensures
            r@ == parse(bf_str@).instrs,
            r.spec_filename() == path@,
    {
        let n: usize = bf_str.unicode_len();
        let mut bf_char_info: Vec<BFCharInfo> = Vec::new();
        let mut open_square_bracket_vec: Vec<usize> = Vec::new();
        let mut line_number: usize = 1;
        let mut col_number: usize = 1;
        let mut i: usize = 0;
        let ghost mut st = init_parse_state();
        proof {
            assert(bf_str@.skip(0) =~= bf_str@);
        }
        while i < n
            invariant
                n as nat == bf_str@.len(),
                i <= n,
                st.instrs == bf_char_info@,
                st.stack == open_square_bracket_vec@,
                st.line == line_number as int,
                st.col == col_number as int,
                bf_char_info@.len() <= i,
                stack_inv(st),
                parse(bf_str@) == parse_from(bf_str@.skip(i as int), st),
            decreases n - i,
        {
            let ghost pre = st;
            let c = bf_str.get_char(i);
            proof {
                assert(bf_str@.skip(i as int)[0] == c);
                assert(bf_str@.skip(i as int).drop_first() =~= bf_str@.skip(i as int + 1));
                lemma_parse_char_inv(pre, c);
                st = parse_char(pre, c);
            }
            if c == '\n' {
                if line_number < usize::MAX {
                    line_number = line_number + 1;
                }
                col_number = 1;
            } else {
                let raw_opt: Option<BFCharCmdName> = match c {
                    '>' => Some(BFCharCmdName::PointerIncrement),
                    '<' => Some(BFCharCmdName::PointerDecrement),
                    '+' => Some(BFCharCmdName::DataIncrement),
                    '-' => Some(BFCharCmdName::DataDecrement),
                    '.' => Some(BFCharCmdName::DataOutput),
                    ',' => Some(BFCharCmdName::DataInput),
                    '[' => Some(BFCharCmdName::LoopStart(None)),
                    ']' => Some(BFCharCmdName::LoopTerminate(None)),
                    _ => None,
                };
                match raw_opt {
                    Some(r0) => {
                        let idx: usize = bf_char_info.len();
                        bf_char_info.push(
                            BFCharInfo { raw: r0, line: line_number, column: col_number },
                        );
                        if c == '[' {
                            open_square_bracket_vec.push(idx);
                        } else if c == ']' {
                            match open_square_bracket_vec.pop() {
                                Some(j) => {
                                    let mut opened = bf_char_info[j];
                                    opened.raw = BFCharCmdName::LoopStart(Some(idx));
                                    bf_char_info[j] = opened;
                                    let mut closed = bf_char_info[idx];
                                    closed.raw = BFCharCmdName::LoopTerminate(Some(j));
                                    bf_char_info[idx] = closed;
                                    proof {
                                        assert(bf_char_info@ =~= st.instrs);
                                    }
                                },
                                None => {},
                            }
                        }
                    },
                    None => {},
                }
                if col_number < usize::MAX {
                    col_number = col_number + 1;
                }
            }
            proof {
                assert(bf_char_info@ =~= st.instrs);
                assert(open_square_bracket_vec@ =~= st.stack);
            }
            i = i + 1;
        }
        proof {
            assert(bf_str@.skip(n as int) =~= Seq::<char>::empty());
        }
        BFProgram { filename: path.to_owned(), instructions: bf_char_info }
    }

    /// Walk the finished instruction sequence and fail at the first
    /// instruction whose bracket is still unmatched, telling an unmatched
    /// open from an unmatched close.  A program must pass this check
    /// before it is handed to the virtual machine.
    pub fn match_square_bracket(&self) -> (r: Result<(), BFBracketErr>)
        ensures
            r is Ok <==> all_resolved(self@),
            r matches Err(e) ==> exists|i: int|
                {
                    &&& 0 <= i < self@.len()
                    &&& !resolved((#[trigger] self@[i]).raw)
                    &&& forall|k: int| 0 <= k < i ==> resolved((#[trigger] self@[k]).raw)
                    &&& e == bracket_err_of(self@[i])
                },
    {
        let n: usize = self.instructions.len();
        let mut i: usize = 0;
        while i < n
            invariant
                n == self@.len(),
                i <= n,
                forall|k: int| 0 <= k < i ==> resolved((#[trigger] self@[k]).raw),
            decreases n - i,
        {
            let s = self.instructions[i];
            match s.raw {
                BFCharCmdName::LoopStart(p) => {
                    if p.is_none() {
                        proof {
                            assert(!resolved(self@[i as int].raw));
                        }
                        return Err(BFBracketErr::UnmatchedOpen(s));
                    }
                },
                BFCharCmdName::LoopTerminate(p) => {
                    if p.is_none() {
                        proof {
                            assert(!resolved(self@[i as int].raw));
                        }
                        return Err(BFBracketErr::UnmatchedClose(s));
                    }
                },
                _ => {},
            }
            i = i + 1;
        }
        Ok(())
    }

    /// A reference to the instruction sequence.
    pub fn instructions(&self) -> (r: &Vec<BFCharInfo>)
        ensures
            r@ == self@,
    {
        &self.instructions
    }

    /// A reference to the identifying name.
    pub fn filename(&self) -> (r: &String)
        ensures
            r@ == self.spec_filename(),
    {
        &self.filename
    }
}

} // verus!
