//! The per-identity, per-day transcript file: one `[HH:MM:SS] role: content`
//! line per turn, append-only. Read-back splits on the first `':'` after the
//! closing bracket and keeps the most recent entries.

use vstd::prelude::*;

use crate::summary::split_lines;
use crate::text::{find_char, lemma_find_char_is, trim_spec};

verus! {

/// How many reloaded entries a session start keeps.
pub const RELOAD_CAP: usize = 20;

/// The exact transcript line for one turn, newline included.
pub open spec fn transcript_line_spec(
    time: Seq<char>,
    role: Seq<char>,
    content: Seq<char>,
) -> Seq<char> {
    "["@ + time + "] "@ + role + ": "@ + content + "\n"@
}

/// Formats one transcript line.
pub fn transcript_line(time: &str, role: &str, content: &str) -> (r: String)
    ensures
        r@ == transcript_line_spec(time@, role@, content@),
{
    let mut out = String::from_str("[");
    out.append(time);
    out.append("] ");
    out.append(role);
    out.append(": ");
    out.append(content);
    out.append("\n");
    proof {
        assert(out@ =~= transcript_line_spec(time@, role@, content@));
    }
    out
}

/// The (role, content) reading of one transcript line: requires a leading
/// `'['`, a `']'`, and a `':'` after it; both parts trimmed.
pub open spec fn parse_line_spec(line: Seq<char>) -> Option<(Seq<char>, Seq<char>)> {
    if line.len() == 0 || line[0] != '[' {
        Option::None
    } else {
        let rest = line.drop_first();
        let i = find_char(rest, ']');
        if !(0 <= i < rest.len()) {
            Option::None
        } else {
            let after = trim_spec(rest.skip(i + 1));
            let j = find_char(after, ':');
            if 0 <= j < after.len() {
                Option::Some((trim_spec(after.take(j)), trim_spec(after.skip(j + 1))))
            } else {
                Option::None
            }
        }
    }
}

/// Parses one transcript line.
pub fn parse_line(line: &str) -> (r: Option<(String, String)>)
    ensures
        match r {
            Option::Some(p) => parse_line_spec(line@) == Option::Some((p.0@, p.1@)),
            Option::None => parse_line_spec(line@) is None,
        },
{
    let n = line.unicode_len();
    if n == 0 || line.get_char(0) != '[' {
        return None;
    }
    let close = match crate::text::find_char_at(line, 1, ']') {
        Some(i) => i,
        None => {
            proof {
                let rest = line@.drop_first();
                assert forall|k: int| 0 <= k < rest.len() implies rest[k] != ']' by {
                    assert(rest[k] == line@[k + 1]);
                }
                lemma_find_char_is(rest, ']', rest.len() as int);
            }
            return None;
        }
    };
    proof {
        let rest = line@.drop_first();
        assert forall|k: int| 0 <= k < close - 1 implies rest[k] != ']' by {
            assert(rest[k] == line@[k + 1]);
        }
        assert(rest[close - 1] == line@[close as int]);
        lemma_find_char_is(rest, ']', close - 1);
    }
    let after = crate::text::trim_str(line.substring_char(close + 1, n));
    proof {
        assert(line@.drop_first().skip(close as int) =~= line@.subrange(close + 1, n as int));
    }
    let m = after.as_str().unicode_len();
    let colon = match crate::text::find_char_at(after.as_str(), 0, ':') {
        Some(j) => j,
        None => {
            proof {
                lemma_find_char_is(after@, ':', after@.len() as int);
            }
            return None;
        }
    };
    proof {
        lemma_find_char_is(after@, ':', colon as int);
    }
    let role = crate::text::trim_str(after.as_str().substring_char(0, colon));
    let content = crate::text::trim_str(after.as_str().substring_char(colon + 1, m));
    proof {
        assert(after@.take(colon as int) =~= after@.subrange(0, colon as int));
        assert(after@.skip(colon as int + 1) =~= after@.subrange(colon as int + 1, m as int));
    }
    Some((role, content))
}

/// The (role, content) pairs of the parseable lines, in order.
pub open spec fn parsed_lines(lines: Seq<Seq<char>>) -> Seq<(Seq<char>, Seq<char>)>
    decreases lines.len(),
{
    if lines.len() == 0 {
        Seq::empty()
    } else {
        let rest = parsed_lines(lines.drop_first());
        match parse_line_spec(lines.first()) {
            Option::Some(p) => seq![p] + rest,
            Option::None => rest,
        }
    }
}

/// What reloading a transcript yields: the parseable lines, capped to the
/// most recent `RELOAD_CAP` entries.
pub open spec fn recent_history_spec(text: Seq<char>) -> Seq<(Seq<char>, Seq<char>)> {
    let all = parsed_lines(split_lines(text));
    if all.len() > RELOAD_CAP {
        all.skip(all.len() - RELOAD_CAP)
    } else {
        all
    }
}

/// The views of a parsed history.
pub open spec fn history_view(h: Seq<(String, String)>) -> Seq<(Seq<char>, Seq<char>)> {
    h.map_values(|p: (String, String)| (p.0@, p.1@))
}

/// Reloads the day's transcript text into (role, content) pairs, keeping the
/// most recent `RELOAD_CAP` entries.
pub fn parse_transcript(text: &str) -> (r: Vec<(String, String)>)
    ensures
        history_view(r@) == recent_history_spec(text@),
{
    let mut out: Vec<(String, String)> = Vec::new();
    let n = text.unicode_len();
    let mut pos: usize = 0;
    proof {
        assert(text@.skip(0) =~= text@);
        assert(history_view(out@) =~= Seq::<(Seq<char>, Seq<char>)>::empty());
        assert(history_view(out@) + parsed_lines(split_lines(text@)) =~= parsed_lines(
            split_lines(text@),
        ));
    }
    while pos < n
        invariant
            0 <= pos <= n,
            n == text@.len(),
            parsed_lines(split_lines(text@)) == history_view(out@) + parsed_lines(
                split_lines(text@.skip(pos as int)),
            ),
        decreases n - pos,
    {
        let ghost rest = text@.skip(pos as int);
        let ghost pre = history_view(out@);
        let end = match crate::text::find_char_at(text, pos, '\n') {
            Some(i) => i,
            None => n,
        };
        proof {
            assert forall|k: int| 0 <= k < end - pos implies rest[k] != '\n' by {
                assert(rest[k] == text@[pos + k]);
            }
            if end < n {
                assert(rest[end - pos] == text@[end as int]);
            }
            lemma_find_char_is(rest, '\n', end - pos);
        }
        let line = text.substring_char(pos, end);
        match parse_line(line) {
            Some(p) => {
                out.push(p);
            }
            None => {},
        }
        proof {
            assert(line@ =~= rest.take(end - pos));
            let lines = split_lines(rest);
            let tail = if end < n {
                split_lines(text@.skip(end + 1))
            } else {
                Seq::<Seq<char>>::empty()
            };
            if end < n {
                assert(rest.skip(end - pos + 1) =~= text@.skip(end + 1));
                assert(lines == seq![line@] + tail);
            } else {
                assert(line@ =~= rest);
                assert(lines == seq![line@]);
                assert(text@.skip(n as int) =~= Seq::<char>::empty());
                assert(split_lines(Seq::<char>::empty()) == Seq::<Seq<char>>::empty());
            }
            assert((seq![line@] + tail).drop_first() =~= tail);
            assert((seq![line@] + tail).first() == line@);
            match parse_line_spec(line@) {
                Option::Some(p) => {
                    assert(history_view(out@) =~= pre.push(p));
                    assert(parsed_lines(lines) == seq![p] + parsed_lines(tail));
                    assert(pre + (seq![p] + parsed_lines(tail)) =~= pre.push(p) + parsed_lines(
                        tail,
                    ));
                }
                Option::None => {
                    assert(parsed_lines(lines) == parsed_lines(tail));
                }
            }
        }
        pos = if end < n {
            end + 1
        } else {
            n
        };
    }
    proof {
        assert(text@.skip(n as int) =~= Seq::<char>::empty());
        assert(history_view(out@) + parsed_lines(split_lines(Seq::<char>::empty()))
            =~= history_view(out@));
    }
    let ghost all = parsed_lines(split_lines(text@));
    let ghost mut dropped: int = 0;
    while out.len() > RELOAD_CAP
        invariant
            0 <= dropped,
            dropped + out@.len() == all.len(),
            history_view(out@) == all.skip(dropped),
            dropped > 0 ==> out@.len() >= RELOAD_CAP,
        decreases out@.len(),
    {
        let ghost prev = out@;
        out.remove(0);
        proof {
            assert(out@ =~= prev.skip(1));
            assert forall|k: int| 0 <= k < out@.len() implies history_view(out@)[k] == all.skip(
                dropped + 1,
            )[k] by {
                assert(out@[k] == prev[k + 1]);
                assert(history_view(prev)[k + 1] == prev[k + 1]@);
            }
            assert(history_view(out@) =~= all.skip(dropped + 1));
            dropped = dropped + 1;
        }
    }
    proof {
        if all.len() > RELOAD_CAP {
            assert(dropped == all.len() - RELOAD_CAP);
        } else {
            assert(dropped == 0);
            assert(all.skip(0) =~= all);
        }
    }
    out
}

} // verus!
