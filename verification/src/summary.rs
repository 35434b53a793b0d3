//! The per-identity summary file: newline-separated `key: value` pairs with
//! recognized keys `name` and `total_sessions` (`last_seen` is written but
//! informational only). Parsing ignores unknown keys and tolerates malformed
//! lines; rendering writes only the known keys.

use vstd::prelude::*;

use crate::text::{
    dec_str, find_char, is_ws_char, lemma_dec_str_val, lemma_find_char_is, lemma_trim_cons_ws,
    lemma_trim_no_ws, lower_seq, parse_u32_spec, trim_spec,
};

verus! {

/// Persisted personalization record for one identity.
#[derive(Clone, Debug)]
pub struct UserSummary {
    pub name: Option<String>,
    pub total_sessions: u32,
}

/// The view of an optional name.
pub open spec fn name_view(n: Option<String>) -> Option<Seq<char>> {
    match n {
        Option::Some(s) => Option::Some(s@),
        Option::None => Option::None,
    }
}

impl View for UserSummary {
    type V = (Option<Seq<char>>, u32);

    open spec fn view(&self) -> (Option<Seq<char>>, u32) {
        (name_view(self.name), self.total_sessions)
    }
}

impl Default for UserSummary {
    /// No name, zero sessions.
    fn default() -> (r: Self)
        ensures
            r@ == (Option::None::<Seq<char>>, 0u32),
    {
        UserSummary { name: None, total_sessions: 0 }
    }
}

/// Splits on `'\n'`, with no empty final piece for text ending in a newline.
pub open spec fn split_lines(s: Seq<char>) -> Seq<Seq<char>>
    decreases s.len(),
{
    if s.len() == 0 {
        Seq::empty()
    } else {
        let i = find_char(s, '\n');
        if 0 <= i < s.len() {
            seq![s.take(i)] + split_lines(s.skip(i + 1))
        } else {
            seq![s]
        }
    }
}

/// The `key: value` reading of one line: split on the first `':'`, both
/// sides trimmed; `None` if the line has no `':'`.
pub open spec fn kv_of_line(line: Seq<char>) -> Option<(Seq<char>, Seq<char>)> {
    let i = find_char(line, ':');
    if 0 <= i < line.len() {
        Option::Some((trim_spec(line.take(i)), trim_spec(line.skip(i + 1))))
    } else {
        Option::None
    }
}

/// Effect of one summary line on the (name, total_sessions) state read so far.
pub open spec fn summary_step(st: (Option<Seq<char>>, u32), line: Seq<char>) -> (
    Option<Seq<char>>,
    u32,
) {
    match kv_of_line(line) {
        Option::Some(kv) => if lower_seq(kv.0) == lower_seq("name"@) {
            (Option::Some(kv.1), st.1)
        } else if lower_seq(kv.0) == lower_seq("total_sessions"@) {
            (st.0, parse_u32_spec(kv.1))
        } else {
            st
        },
        Option::None => st,
    }
}

/// Folds `summary_step` over the lines, front to back.
pub open spec fn summary_fold(st: (Option<Seq<char>>, u32), lines: Seq<Seq<char>>) -> (
    Option<Seq<char>>,
    u32,
)
    decreases lines.len(),
{
    if lines.len() == 0 {
        st
    } else {
        summary_fold(summary_step(st, lines.first()), lines.drop_first())
    }
}

/// What a summary file's text parses to.
pub open spec fn parse_summary_spec(text: Seq<char>) -> (Option<Seq<char>>, u32) {
    summary_fold((Option::None, 0u32), split_lines(text))
}

/// Applies one line of the summary file to the state being accumulated.
fn apply_summary_line(line: &str, name: &mut Option<String>, sessions: &mut u32)
    ensures
        (name_view(*final(name)), *final(sessions)) == summary_step(
            (name_view(*old(name)), *old(sessions)),
            line@,
        ),
{
    let n = line.unicode_len();
    match crate::text::find_char_at(line, 0, ':') {
        Some(i) => {
            proof {
                lemma_find_char_is(line@, ':', i as int);
            }
            let key = crate::text::trim_str(line.substring_char(0, i));
            let val = crate::text::trim_str(line.substring_char(i + 1, n));
            proof {
                assert(line@.take(i as int) =~= line@.subrange(0, i as int));
                assert(line@.skip(i + 1) =~= line@.subrange(i + 1, n as int));
            }
            if crate::text::eq_ignore_case(key.as_str(), "name") {
                *name = Some(val);
            } else if crate::text::eq_ignore_case(key.as_str(), "total_sessions") {
                *sessions = crate::text::parse_u32(val.as_str());
            }
        }
        None => {
            proof {
                lemma_find_char_is(line@, ':', line@.len() as int);
            }
        }
    }
}

/// Parses a summary file's text; unknown keys are ignored, later lines win.
pub fn parse_summary(text: &str) -> (r: UserSummary)
    ensures
        r@ == parse_summary_spec(text@),
{
    let mut name: Option<String> = None;
    let mut sessions: u32 = 0;
    let n = text.unicode_len();
    let mut pos: usize = 0;
    proof {
        assert(text@.skip(0) =~= text@);
    }
    while pos < n
        invariant
            0 <= pos <= n,
            n == text@.len(),
            parse_summary_spec(text@) == summary_fold(
                (name_view(name), sessions),
                split_lines(text@.skip(pos as int)),
            ),
        decreases n - pos,
    {
        let ghost rest = text@.skip(pos as int);
        let ghost st0 = (name_view(name), sessions);
        let end = match crate::text::find_char_at(text, pos, '\n') {
            Some(i) => i,
            None => n,
        };
        proof {
            assert forall|k: int| 0 <= k < end - pos implies rest[k] != '\n' by {
                assert(rest[k] == text@[pos + k]);
            }
            if end < n {
                assert(rest[end - pos] == text@[end as int]);
            }
            lemma_find_char_is(rest, '\n', end - pos);
        }
        let line = text.substring_char(pos, end);
        apply_summary_line(line, &mut name, &mut sessions);
        proof {
            assert(line@ =~= rest.take(end - pos));
            let st1 = summary_step(st0, line@);
            if end < n {
                let tail = split_lines(text@.skip(end + 1));
                assert(rest.skip(end - pos + 1) =~= text@.skip(end + 1));
                assert(split_lines(rest) == seq![line@] + tail);
                assert((seq![line@] + tail).first() == line@);
                assert((seq![line@] + tail).drop_first() =~= tail);
                assert(summary_fold(st0, split_lines(rest)) == summary_fold(st1, tail));
            } else {
                assert(line@ =~= rest);
                assert(split_lines(rest) == seq![line@]);
                assert(seq![line@].drop_first() =~= Seq::<Seq<char>>::empty());
                assert(summary_fold(st0, split_lines(rest)) == summary_fold(
                    st1,
                    Seq::<Seq<char>>::empty(),
                ));
                assert(text@.skip(n as int) =~= Seq::<char>::empty());
            }
        }
        pos = if end < n {
            end + 1
        } else {
            n
        };
    }
    proof {
        assert(text@.skip(n as int) =~= Seq::<char>::empty());
    }
    UserSummary { name, total_sessions: sessions }
}

/// The exact text written back for a summary: the known keys only.
pub open spec fn render_summary_spec(
    name: Option<Seq<char>>,
    sessions: u32,
    last_seen: Seq<char>,
) -> Seq<char> {
    (match name {
        Option::Some(nm) => "name: "@ + nm + "\n"@,
        Option::None => Seq::<char>::empty(),
    }) + "total_sessions: "@ + dec_str(sessions as nat) + "\n"@ + "last_seen: "@ + last_seen
        + "\n"@
}

/// Renders the whole summary file.
pub fn render_summary(summary: &UserSummary, last_seen: &str) -> (r: String)
    ensures
        r@ == render_summary_spec(summary@.0, summary@.1, last_seen@),
{
    let mut out = String::new();
    match &summary.name {
        Some(nm) => {
            out.append("name: ");
            out.append(nm.as_str());
            out.append("\n");
        }
        None => {}
    }
    out.append("total_sessions: ");
    let ds = crate::text::u32_to_string(summary.total_sessions);
    out.append(ds.as_str());
    out.append("\n");
    out.append("last_seen: ");
    out.append(last_seen);
    out.append("\n");
    proof {
        assert(out@ =~= render_summary_spec(summary@.0, summary@.1, last_seen@));
    }
    out
}

/// Reads the stored summary (defaults if the file was absent) and counts one
/// more session, saturating at the counter's maximum.
pub fn update_session_start(existing: Option<&str>) -> (r: UserSummary)
    ensures
        ({
            let st = match existing {
                Option::Some(t) => parse_summary_spec(t@),
                Option::None => (Option::None::<Seq<char>>, 0u32),
            };
            r@.0 == st.0 && r@.1 == (if st.1 < u32::MAX {
                (st.1 + 1) as u32
            } else {
                u32::MAX
            })
        }),
{
    let mut s = match existing {
        Some(t) => parse_summary(t),
        None => UserSummary { name: None, total_sessions: 0 },
    };
    if s.total_sessions < u32::MAX {
        s.total_sessions = s.total_sessions + 1;
    }
    s
}

/// Rebuilds the summary for a name change: the stored session count is kept,
/// the stored name is replaced.
pub fn set_user_name(existing: Option<&str>, name: &str) -> (r: UserSummary)
    ensures
        r@.0 == Option::Some(name@),
        r@.1 == (match existing {
            Option::Some(t) => parse_summary_spec(t@).1,
            Option::None => 0u32,
        }),
{
    let sessions = match existing {
        Some(t) => parse_summary(t).total_sessions,
        None => 0,
    };
    UserSummary { name: Some(name.to_owned()), total_sessions: sessions }
}

/// Splitting text built as `piece + '\n' + rest` yields `piece` as the first
/// line when the piece itself has no newline.
proof fn lemma_split_lines_concat(a: Seq<char>, rest: Seq<char>)
    requires
        forall|i: int| 0 <= i < a.len() ==> a[i] != '\n',
    ensures
        split_lines(a + seq!['\n'] + rest) == seq![a] + split_lines(rest),
{
    let s = a + seq!['\n'] + rest;
    assert(s.len() > 0);
    assert forall|i: int| 0 <= i < a.len() implies s[i] != '\n' by {
        assert(s[i] == a[i]);
    }
    assert(s[a.len() as int] == '\n');
    lemma_find_char_is(s, '\n', a.len() as int);
    assert(s.take(a.len() as int) =~= a);
    assert(s.skip(a.len() as int + 1) =~= rest);
}

/// Saving a summary and loading it back recovers the name exactly and the
/// session count exactly, for any name without newlines or outer whitespace.
#[verifier::rlimit(60)]
pub proof fn lemma_summary_round_trip(
    name: Option<Seq<char>>,
    sessions: u32,
    last_seen: Seq<char>,
)
    requires
        match name {
            Option::Some(nm) => trim_spec(nm) == nm && forall|i: int|
                0 <= i < nm.len() ==> nm[i] != '\n',
            Option::None => true,
        },
        forall|i: int| 0 <= i < last_seen.len() ==> last_seen[i] != '\n',
    ensures
        parse_summary_spec(render_summary_spec(name, sessions, last_seen)) == (name, sessions),
{
    reveal_strlit("name: ");
    reveal_strlit("total_sessions: ");
    reveal_strlit("last_seen: ");
    reveal_strlit("\n");
    reveal_strlit("name");
    reveal_strlit("total_sessions");
    reveal_strlit("last_seen");
    lemma_dec_str_val(sessions as nat);
    let ds = dec_str(sessions as nat);
    let sess_line = "total_sessions: "@ + ds;
    let seen_line = "last_seen: "@ + last_seen;
    let text = render_summary_spec(name, sessions, last_seen);

    assert("name: "@ =~= seq!['n', 'a', 'm', 'e', ':', ' ']);
    assert("total_sessions: "@ =~= seq![
        't', 'o', 't', 'a', 'l', '_', 's', 'e', 's', 's', 'i', 'o', 'n', 's', ':', ' ',
    ]);
    assert("last_seen: "@ =~= seq!['l', 'a', 's', 't', '_', 's', 'e', 'e', 'n', ':', ' ']);
    assert("\n"@ =~= seq!['\n']);
    assert("name"@ =~= seq!['n', 'a', 'm', 'e']);
    assert("total_sessions"@ =~= seq![
        't', 'o', 't', 'a', 'l', '_', 's', 'e', 's', 's', 'i', 'o', 'n', 's',
    ]);

    // The three lines contain no newline.
    assert forall|i: int| 0 <= i < sess_line.len() implies sess_line[i] != '\n' by {
        if i >= 16 {
            assert(sess_line[i] == ds[i - 16]);
            assert(crate::text::is_digit_char(ds[i - 16]));
        }
    }
    assert forall|i: int| 0 <= i < seen_line.len() implies seen_line[i] != '\n' by {
        if i >= 11 {
            assert(seen_line[i] == last_seen[i - 11]);
        }
    }

    // The line structure of the rendered text.
    let tail2 = seen_line + seq!['\n'];
    lemma_split_lines_concat(seen_line, Seq::<char>::empty());
    assert(split_lines(Seq::<char>::empty()) == Seq::<Seq<char>>::empty());
    assert(split_lines(tail2) =~= seq![seen_line]) by {
        assert(seen_line + seq!['\n'] + Seq::<char>::empty() =~= tail2);
    }
    let tail1 = sess_line + seq!['\n'] + tail2;
    lemma_split_lines_concat(sess_line, tail2);
    assert(split_lines(tail1) =~= seq![sess_line, seen_line]) by {
        assert(seq![sess_line] + seq![seen_line] =~= seq![sess_line, seen_line]);
    }

    // Reading the session line back yields the session count.
    assert forall|i: int| 0 <= i < ds.len() implies !is_ws_char(#[trigger] ds[i]) && ds[i] != '\n'
        && ds[i] != ':' by {
        assert(crate::text::is_digit_char(ds[i]));
    }
    lemma_trim_no_ws(ds);
    assert(summary_kv_facts(sess_line, "total_sessions"@, ds, 14)) by {
        let k = seq!['t', 'o', 't', 'a', 'l', '_', 's', 'e', 's', 's', 'i', 'o', 'n', 's'];
        lemma_kv_line(k, ds);
        assert(sess_line =~= k + seq![':', ' '] + ds);
        assert(k =~= "total_sessions"@);
    }
    assert(parse_u32_spec(ds) == sessions) by {
        assert(ds[0] != '+') by {
            assert(crate::text::is_digit_char(ds[0]));
        }
    }

    // Reading the seen line back changes nothing: its key has length 9.
    assert(summary_kv_facts(seen_line, "last_seen"@, trim_spec(last_seen), 9)) by {
        let k = seq!['l', 'a', 's', 't', '_', 's', 'e', 'e', 'n'];
        assert("last_seen"@ =~= k);
        lemma_kv_line(k, last_seen);
        assert(seen_line =~= k + seq![':', ' '] + last_seen);
    }
    assert(lower_seq("last_seen"@) != lower_seq("name"@) && lower_seq("last_seen"@) != lower_seq(
        "total_sessions"@,
    )) by {
        assert(lower_seq("last_seen"@).len() == 9);
        assert(lower_seq("name"@).len() == 4);
        assert(lower_seq("total_sessions"@).len() == 14);
    }
    assert(lower_seq("total_sessions"@) != lower_seq("name"@)) by {
        assert(lower_seq("total_sessions"@).len() == 14);
        assert(lower_seq("name"@).len() == 4);
    }

    match name {
        Option::Some(nm) => {
            let name_line = "name: "@ + nm;
            assert forall|i: int| 0 <= i < name_line.len() implies name_line[i] != '\n' by {
                if i >= 6 {
                    assert(name_line[i] == nm[i - 6]);
                }
            }
            lemma_split_lines_concat(name_line, tail1);
            assert(text =~= name_line + seq!['\n'] + tail1);
            assert(split_lines(text) =~= seq![name_line, sess_line, seen_line]) by {
                assert(seq![name_line] + seq![sess_line, seen_line] =~= seq![
                    name_line, sess_line, seen_line,
                ]);
            }
            assert(summary_kv_facts(name_line, "name"@, nm, 4)) by {
                let k = seq!['n', 'a', 'm', 'e'];
                lemma_kv_line(k, nm);
                assert(name_line =~= k + seq![':', ' '] + nm);
                assert(k =~= "name"@);
                assert(trim_spec(nm) == nm);
            }
            let lines = seq![name_line, sess_line, seen_line];
            assert(lines.drop_first() =~= seq![sess_line, seen_line]);
            assert(seq![sess_line, seen_line].drop_first() =~= seq![seen_line]);
            assert(seq![seen_line].drop_first() =~= Seq::<Seq<char>>::empty());
            let st0 = (Option::None::<Seq<char>>, 0u32);
            let st1 = summary_step(st0, name_line);
            assert(st1 == (Option::Some(nm), 0u32));
            assert(summary_fold(st0, lines) == summary_fold(st1, seq![sess_line, seen_line]));
            let st2 = summary_step(st1, sess_line);
            assert(st2 == (Option::Some(nm), sessions));
            assert(summary_fold(st1, seq![sess_line, seen_line]) == summary_fold(
                st2,
                seq![seen_line],
            ));
            let st3 = summary_step(st2, seen_line);
            assert(st3 == (Option::Some(nm), sessions));
            assert(summary_fold(st2, seq![seen_line]) == summary_fold(
                st3,
                Seq::<Seq<char>>::empty(),
            ));
            assert(parse_summary_spec(text) == (Option::Some(nm), sessions));
        }
        Option::None => {
            assert(text =~= tail1);
            let lines = seq![sess_line, seen_line];
            assert(lines.drop_first() =~= seq![seen_line]);
            assert(seq![seen_line].drop_first() =~= Seq::<Seq<char>>::empty());
            let st0 = (Option::None::<Seq<char>>, 0u32);
            let st1 = summary_step(st0, sess_line);
            assert(st1 == (Option::None::<Seq<char>>, sessions));
            assert(summary_fold(st0, lines) == summary_fold(st1, seq![seen_line]));
            let st2 = summary_step(st1, seen_line);
            assert(st2 == (Option::None::<Seq<char>>, sessions));
            assert(summary_fold(st1, seq![seen_line]) == summary_fold(
                st2,
                Seq::<Seq<char>>::empty(),
            ));
            assert(parse_summary_spec(text) == (Option::None::<Seq<char>>, sessions));
        }
    }
}

/// What `kv_of_line` yields on a rendered `key: value` line.
spec fn summary_kv_facts(line: Seq<char>, key: Seq<char>, value: Seq<char>, klen: int) -> bool {
    kv_of_line(line) == Option::Some((key, value)) && key.len() == klen
}

/// A rendered line `key + ": " + raw` reads back as `(key, trim(raw))` when
/// the key has no `':'` and no whitespace.
proof fn lemma_kv_line(key: Seq<char>, raw: Seq<char>)
    requires
        key.len() > 0,
        forall|i: int| 0 <= i < key.len() ==> key[i] != ':' && !is_ws_char(#[trigger] key[i]),
    ensures
        kv_of_line(key + seq![':', ' '] + raw) == Option::Some((key, trim_spec(raw))),
{
    let line = key + seq![':', ' '] + raw;
    assert forall|i: int| 0 <= i < key.len() implies line[i] != ':' by {
        assert(line[i] == key[i]);
    }
    assert(line[key.len() as int] == ':');
    lemma_find_char_is(line, ':', key.len() as int);
    assert(line.take(key.len() as int) =~= key);
    lemma_trim_no_ws(key);
    assert(line.skip(key.len() as int + 1) =~= seq![' '] + raw);
    lemma_trim_cons_ws(' ', raw);
}

} // verus!
