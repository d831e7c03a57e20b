//! Log classification and prefix stripping.
//!
//! A transaction carries an ordered sequence of log lines. The classifier
//! picks out the first line carrying the instruction marker and the first
//! generic program-log line that is not an instruction marker; the stripper
//! removes one leading occurrence of the state-line prefix.

use vstd::prelude::*;
use vstd::string::StrSliceExecFns;
use crate::chars::{starts_with, str_starts_with};

verus! {

/// Prefix that marks the instruction line.
pub open spec fn instruction_prefix() -> Seq<char> {
    "Program log: Instruction:"@
}

/// Prefix that marks any program log line.
pub open spec fn log_prefix() -> Seq<char> {
    "Program log"@
}

/// Prefix removed from the state line before decoding.
pub open spec fn state_prefix() -> Seq<char> {
    "Program log: "@
}

/// Whether a line is the instruction line.
pub open spec fn is_instruction_line(s: Seq<char>) -> bool {
    starts_with(s, instruction_prefix())
}

/// Whether a line is a state line: a program log line that is not the
/// instruction line.
pub open spec fn is_state_line(s: Seq<char>) -> bool {
    starts_with(s, log_prefix()) && !is_instruction_line(s)
}

/// Index of the first instruction line, or `ls.len()` if there is none.
pub open spec fn first_instruction_index(ls: Seq<Seq<char>>) -> int
    decreases ls.len(),
{
    if ls.len() == 0 {
        0
    } else if is_instruction_line(ls[0]) {
        0
    } else {
        1 + first_instruction_index(ls.drop_first())
    }
}

/// Index of the first state line, or `ls.len()` if there is none.
pub open spec fn first_state_index(ls: Seq<Seq<char>>) -> int
    decreases ls.len(),
{
    if ls.len() == 0 {
        0
    } else if is_state_line(ls[0]) {
        0
    } else {
        1 + first_state_index(ls.drop_first())
    }
}

pub proof fn lemma_first_instruction_index(ls: Seq<Seq<char>>)
    ensures
        0 <= first_instruction_index(ls) <= ls.len(),
        first_instruction_index(ls) < ls.len() ==> is_instruction_line(
            ls[first_instruction_index(ls)],
        ),
        forall|k: int|
            0 <= k < first_instruction_index(ls) ==> !is_instruction_line(#[trigger] ls[k]),
    decreases ls.len(),
{
    if ls.len() > 0 && !is_instruction_line(ls[0]) {
        lemma_first_instruction_index(ls.drop_first());
        assert forall|k: int|
            0 <= k < first_instruction_index(ls) implies !is_instruction_line(
            #[trigger] ls[k],
        ) by {
            if k > 0 {
                assert(ls[k] == ls.drop_first()[k - 1]);
            }
        }
    }
}

pub proof fn lemma_first_state_index(ls: Seq<Seq<char>>)
    ensures
        0 <= first_state_index(ls) <= ls.len(),
        first_state_index(ls) < ls.len() ==> is_state_line(ls[first_state_index(ls)]),
        forall|k: int| 0 <= k < first_state_index(ls) ==> !is_state_line(#[trigger] ls[k]),
    decreases ls.len(),
{
    if ls.len() > 0 && !is_state_line(ls[0]) {
        lemma_first_state_index(ls.drop_first());
        assert forall|k: int| 0 <= k < first_state_index(ls) implies !is_state_line(
            #[trigger] ls[k],
        ) by {
            if k > 0 {
                assert(ls[k] == ls.drop_first()[k - 1]);
            }
        }
    }
}

/// Which required log line was absent from a transaction.
#[derive(Debug, Clone, Copy, PartialEq, Eq, Structural)]
pub enum MissingLogLine {
    Instruction,
    State,
}

/// The two classified lines of one transaction, content unchanged.
#[derive(Debug, Clone, PartialEq, Eq)]
pub struct LogPair {
    pub instruction: String,
    pub state: String,
}

/// What classification yields on a sequence of log lines: the first
/// instruction line and the first state line, or the first missing kind.
pub open spec fn classify_spec(ls: Seq<Seq<char>>) -> Result<(Seq<char>, Seq<char>), MissingLogLine> {
    if first_instruction_index(ls) == ls.len() {
        Err(MissingLogLine::Instruction)
    } else if first_state_index(ls) == ls.len() {
        Err(MissingLogLine::State)
    } else {
        Ok((ls[first_instruction_index(ls)], ls[first_state_index(ls)]))
    }
}

/// Finds the instruction line and the state line among the given log lines.
pub fn classify_logs(logs: &Vec<String>) -> (r: Result<LogPair, MissingLogLine>)
    ensures
        r matches Ok(p) ==> classify_spec(logs.deep_view()) == Ok::<_, MissingLogLine>(
            (p.instruction@, p.state@),
        ),
        r matches Err(e) ==> classify_spec(logs.deep_view()) == Err::<(Seq<char>, Seq<char>), _>(
            e,
        ),
{
    let ghost ls = logs.deep_view();
    proof {
        lemma_first_instruction_index(ls);
        lemma_first_state_index(ls);
    }
    let n = logs.len();
    let mut instr: Option<usize> = None;
    let mut i: usize = 0;
    while i < n
        invariant
            n == ls.len(),
            ls == logs.deep_view(),
            i <= n,
            instr is None ==> forall|k: int| 0 <= k < i ==> !is_instruction_line(#[trigger] ls[k]),
            instr matches Some(j) ==> j < n && j == first_instruction_index(ls),
        decreases n - i,
    {
        if instr.is_none() && str_starts_with(logs[i].as_str(), "Program log: Instruction:") {
            proof {
                lemma_first_instruction_index(ls);
                assert(is_instruction_line(ls[i as int]));
            }
            instr = Some(i);
        }
        i = i + 1;
    }
    let instr_at = match instr {
        Some(j) => j,
        None => {
            proof {
                assert(first_instruction_index(ls) == ls.len());
            }
            return Err(MissingLogLine::Instruction);
        },
    };
    let mut state: Option<usize> = None;
    let mut i: usize = 0;
    while i < n
        invariant
            n == ls.len(),
            ls == logs.deep_view(),
            i <= n,
            state is None ==> forall|k: int| 0 <= k < i ==> !is_state_line(#[trigger] ls[k]),
            state matches Some(j) ==> j < n && j == first_state_index(ls),
        decreases n - i,
    {
        if state.is_none() && str_starts_with(logs[i].as_str(), "Program log")
            && !str_starts_with(logs[i].as_str(), "Program log: Instruction:") {
            proof {
                lemma_first_state_index(ls);
                assert(is_state_line(ls[i as int]));
            }
            state = Some(i);
        }
        i = i + 1;
    }
    let state_at = match state {
        Some(j) => j,
        None => {
            proof {
                assert(first_state_index(ls) == ls.len());
            }
            return Err(MissingLogLine::State);
        },
    };
    let instruction = logs[instr_at].clone();
    let state_line = logs[state_at].clone();
    Ok(LogPair { instruction, state: state_line })
}

/// What stripping yields: the line without one leading occurrence of the
/// state prefix, or the line unchanged when the prefix is absent.
pub open spec fn strip_state_prefix_spec(s: Seq<char>) -> Seq<char> {
    if starts_with(s, state_prefix()) {
        s.skip(state_prefix().len() as int)
    } else {
        s
    }
}

/// Removes a single leading occurrence of the state prefix, if present.
pub fn strip_state_prefix(s: &str) -> (r: String)
    ensures
        r@ == strip_state_prefix_spec(s@),
{
    if str_starts_with(s, "Program log: ") {
        let pn = "Program log: ".unicode_len();
        let rest = s.substring_char(pn, s.unicode_len());
        proof {
            assert(rest@ =~= s@.skip(state_prefix().len() as int));
        }
        rest.to_owned()
    } else {
        s.to_owned()
    }
}

/// A line that no longer carries the state prefix is left unchanged by a
/// further strip: stripping is idempotent after the first application.
pub proof fn lemma_strip_idempotent(s: Seq<char>)
    ensures
        !starts_with(strip_state_prefix_spec(s), state_prefix())
            ==> strip_state_prefix_spec(strip_state_prefix_spec(s)) == strip_state_prefix_spec(s),
{
}

/// A sequence of lines holding an instruction line and a state line is
/// classified as the first of each, content unchanged: in particular, when it
/// holds exactly one of each, those two lines come back as they stand.
pub proof fn lemma_classify_unique(ls: Seq<Seq<char>>, i: int, j: int)
    requires
        0 <= i < ls.len(),
        0 <= j < ls.len(),
        is_instruction_line(ls[i]),
        forall|k: int| 0 <= k < ls.len() && k != i ==> !is_instruction_line(#[trigger] ls[k]),
        is_state_line(ls[j]),
        forall|k: int| 0 <= k < ls.len() && k != j ==> !is_state_line(#[trigger] ls[k]),
    ensures
        classify_spec(ls) == Ok::<_, MissingLogLine>((ls[i], ls[j])),
{
    lemma_first_instruction_index(ls);
    lemma_first_state_index(ls);
    assert(first_instruction_index(ls) == i);
    assert(first_state_index(ls) == j);
}

/// A sequence of lines missing either required line is classified as the
/// matching `MissingLogLine` error.
pub proof fn lemma_classify_missing(ls: Seq<Seq<char>>)
    ensures
        (forall|k: int| 0 <= k < ls.len() ==> !is_instruction_line(#[trigger] ls[k]))
            ==> classify_spec(ls) == Err::<(Seq<char>, Seq<char>), _>(MissingLogLine::Instruction),
        (forall|k: int| 0 <= k < ls.len() ==> !is_state_line(#[trigger] ls[k]))
            ==> classify_spec(ls) is Err,
{
    lemma_first_instruction_index(ls);
    lemma_first_state_index(ls);
}

} // verus!
