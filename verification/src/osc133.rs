//! FinalTerm OSC 133 shell-integration marks (`ESC ] 133 ; A/B/C/D ... BEL|ST`).

use vstd::prelude::*;

use crate::decimal::{parse_int, parse_int_spec};

verus! {

/// The shell region a byte belongs to. `None` = before the first prompt
/// (banner/MOTD) or after a command ends (`;D`).
#[derive(Clone, Copy, PartialEq, Eq, Debug, Structural)]
pub enum PromptRegion {
    Outside,
    /// `;A` to `;B`: the shell prompt.
    Prompt,
    /// `;B` to `;C`: the echoed command line.
    Command,
    /// `;C` to `;D`: command output.
    Output,
}

/// Max bytes of one mark that are buffered or scanned.
pub const OSC133_MAX: usize = 32;

/// Length of the `ESC ] 1 3 3 ;` introducer.
pub const OSC133_PREFIX_LEN: usize = 6;

/// The `ESC ] 1 3 3 ;` introducer.
pub open spec fn osc133_prefix() -> Seq<u8> {
    seq![0x1bu8, 0x5du8, 0x31u8, 0x33u8, 0x33u8, 0x3bu8]
}

/// The region a mark's subcommand switches to; `None` for a recognized mark
/// without a transition (e.g. `;P`, `;K`).
pub open spec fn region_for_spec(sub: u8) -> Option<PromptRegion> {
    if sub == 0x41u8 {
        Some(PromptRegion::Prompt)
    } else if sub == 0x42u8 {
        Some(PromptRegion::Command)
    } else if sub == 0x43u8 {
        Some(PromptRegion::Output)
    } else if sub == 0x44u8 {
        Some(PromptRegion::Outside)
    } else {
        None
    }
}

pub fn region_for(sub: u8) -> (r: Option<PromptRegion>)
    ensures
        r == region_for_spec(sub),
{
    match sub {
        0x41u8 => Some(PromptRegion::Prompt),
        0x42u8 => Some(PromptRegion::Command),
        0x43u8 => Some(PromptRegion::Output),
        0x44u8 => Some(PromptRegion::Outside),
        _ => None,
    }
}

/// The exit code carried by a `;D` mark's argument (`;42`), if it is a `;`
/// followed by an `i32` literal.
pub open spec fn exit_code_spec(arg: Seq<u8>) -> Option<i32> {
    if arg.len() > 0 && arg[0] == 0x3bu8 {
        match parse_int_spec(arg.drop_first(), true, i32::MIN as int, i32::MAX as int) {
            Some(v) => Some(v as i32),
            None => None,
        }
    } else {
        None
    }
}

pub fn parse_exit_code(arg: &[u8]) -> (r: Option<i32>)
    ensures
        r == exit_code_spec(arg@),
{
    if arg.len() == 0 || arg[0] != 0x3bu8 {
        return None;
    }
    let digits = &arg[1..arg.len()];
    assert(digits@ =~= arg@.drop_first());
    match parse_int(digits, true, i32::MIN as i128, i32::MAX as i128) {
        Some(v) => Some(v as i32),
        None => None,
    }
}

/// How a byte run starting at an ESC reads as an OSC 133 mark.
#[derive(Debug)]
pub enum Osc133 {
    /// A complete mark of `len` bytes with subcommand `sub`; `exit` is the
    /// `;D;<code>` exit code and `next` the region it switches to.
    Mark { len: usize, sub: u8, exit: Option<i32>, next: Option<PromptRegion> },
    /// A mark prefix that the run ends inside of.
    Incomplete,
    /// Not an OSC 133 mark; the ESC is ordinary terminal output.
    NotMark,
    /// Starts like OSC 133 but is malformed or too long.
    Malformed,
}

/// Whether `s` agrees with the introducer on their common length.
pub open spec fn agrees_with_prefix(s: Seq<u8>) -> bool {
    forall|k: int| 0 <= k < s.len() && k < 6 ==> s[k] == #[trigger] osc133_prefix()[k]
}

pub open spec fn is_terminator_start(b: u8) -> bool {
    b == 0x07u8 || b == 0x1bu8
}

/// The first index in `[from, end)` holding BEL or ESC, or `end`.
pub open spec fn first_terminator(s: Seq<u8>, from: int, end: int) -> int
    decreases end - from,
{
    if from >= end {
        end
    } else if is_terminator_start(s[from]) {
        from
    } else {
        first_terminator(s, from + 1, end)
    }
}

pub open spec fn mark_exit_spec(s: Seq<u8>, sub: u8, term: int) -> Option<i32> {
    if sub == 0x44u8 {
        exit_code_spec(s.subrange(7, term))
    } else {
        None
    }
}

/// How `s` reads as an OSC 133 mark: the introducer, a subcommand byte, then
/// arguments up to the first BEL or `ESC \` within the first `OSC133_MAX`
/// bytes.
pub open spec fn osc133_spec(s: Seq<u8>) -> Osc133 {
    if !agrees_with_prefix(s) {
        Osc133::NotMark
    } else if s.len() <= 6 {
        Osc133::Incomplete
    } else {
        let sub = s[6];
        let end = if s.len() < 32 { s.len() as int } else { 32 };
        let t = first_terminator(s, 6, end);
        if t >= end {
            if s.len() < 32 {
                Osc133::Incomplete
            } else {
                Osc133::Malformed
            }
        } else if s[t] == 0x07u8 {
            Osc133::Mark {
                len: (t + 1) as usize,
                sub,
                exit: mark_exit_spec(s, sub, t),
                next: region_for_spec(sub),
            }
        } else if t + 1 < s.len() && s[t + 1] == 0x5cu8 {
            Osc133::Mark {
                len: (t + 2) as usize,
                sub,
                exit: mark_exit_spec(s, sub, t),
                next: region_for_spec(sub),
            }
        } else if t + 1 == s.len() {
            Osc133::Incomplete
        } else {
            Osc133::Malformed
        }
    }
}

proof fn lemma_first_terminator_bounds(s: Seq<u8>, from: int, end: int)
    requires
        from <= end,
    ensures
        from <= first_terminator(s, from, end) <= end,
        first_terminator(s, from, end) < end ==> is_terminator_start(
            s[first_terminator(s, from, end)],
        ),
    decreases end - from,
{
    if from < end && !is_terminator_start(s[from]) {
        lemma_first_terminator_bounds(s, from + 1, end);
    }
}

fn mark_exit(s: &[u8], sub: u8, term: usize) -> (r: Option<i32>)
    requires
        sub == 0x44u8 ==> 7 <= term <= s@.len(),
    ensures
        r == mark_exit_spec(s@, sub, term as int),
{
    if sub == 0x44u8 {
        let arg = &s[7..term];
        parse_exit_code(arg)
    } else {
        None
    }
}

/// Classify the run `s` (which starts at an ESC in practice) as an OSC 133
/// mark.
pub fn parse_osc133(s: &[u8]) -> (r: Osc133)
    ensures
        r == osc133_spec(s@),
        r matches Osc133::Mark { len, .. } ==> 7 <= len <= s@.len() && len <= OSC133_MAX + 1,
        r is Incomplete ==> s@.len() <= OSC133_MAX,
{
    let n = s.len();
    let pn = if n < OSC133_PREFIX_LEN {
        n
    } else {
        OSC133_PREFIX_LEN
    };
    let prefix: [u8; 6] = [0x1bu8, 0x5du8, 0x31u8, 0x33u8, 0x33u8, 0x3bu8];
    assert(prefix@ =~= osc133_prefix());
    let mut k: usize = 0;
    while k < pn
        invariant
            pn <= n,
            pn <= 6,
            n == s@.len(),
            prefix@ == osc133_prefix(),
            k <= pn,
            forall|j: int| 0 <= j < k ==> s@[j] == osc133_prefix()[j],
        decreases pn - k,
    {
        if s[k] != prefix[k] {
            assert(!agrees_with_prefix(s@)) by {
                assert(s@[k as int] != osc133_prefix()[k as int]);
            }
            return Osc133::NotMark;
        }
        k = k + 1;
    }
    assert(agrees_with_prefix(s@));
    if n <= OSC133_PREFIX_LEN {
        return Osc133::Incomplete;
    }
    let sub = s[6];
    let end = if n < OSC133_MAX {
        n
    } else {
        OSC133_MAX
    };
    let ghost t = first_terminator(s@, 6, end as int);
    proof {
        lemma_first_terminator_bounds(s@, 6, end as int);
    }
    let mut i: usize = 6;
    while i < end
        invariant
            6 <= i <= end,
            end <= n,
            end <= 32,
            n == s@.len(),
            end == (if n < 32 { n } else { 32 }),
            t == first_terminator(s@, 6, end as int),
            first_terminator(s@, i as int, end as int) == t,
            sub == s@[6],
            n > 6,
            agrees_with_prefix(s@),
        decreases end - i,
    {
        let b = s[i];
        if b == 0x07u8 {
            assert(t == i);
            if sub == 0x44u8 {
                assert(is_terminator_start(s@[6]) == false);
            }
            return Osc133::Mark {
                len: i + 1,
                sub,
                exit: mark_exit(s, sub, i),
                next: region_for(sub),
            };
        } else if b == 0x1bu8 {
            assert(t == i);
            if sub == 0x44u8 {
                assert(is_terminator_start(s@[6]) == false);
            }
            if i + 1 < n && s[i + 1] == 0x5cu8 {
                return Osc133::Mark {
                    len: i + 2,
                    sub,
                    exit: mark_exit(s, sub, i),
                    next: region_for(sub),
                };
            } else if i + 1 == n {
                return Osc133::Incomplete;
            } else {
                return Osc133::Malformed;
            }
        }
        i = i + 1;
    }
    assert(t == end);
    if n < OSC133_MAX {
        Osc133::Incomplete
    } else {
        Osc133::Malformed
    }
}

} // verus!
