//! The environment-variable text format: newline-separated `KEY=VALUE`
//! pairs. Blank lines and lines starting with `#` are comments; a line
//! without `=` is ignored; key and value are trimmed of surrounding
//! whitespace; an empty key drops the line, while an empty value is kept.
//!
//! The supervisor applies a stricter rule to the overrides it passes to a
//! spawned process: entries whose value is empty or whitespace-only are
//! dropped outright, so that a blank override cannot unset a variable.

use vstd::prelude::*;

use crate::text::{find_char, find_char_in, find_newline_from, split_lines, trim, trim_str};
use crate::text::{lemma_find_char_absent, lemma_find_char_is_first};

verus! {

/// What one line of the format yields: a trimmed key/value pair, or
/// nothing for comments, blank lines, lines without `=` and lines whose
/// key trims to nothing.
pub open spec fn parse_line(line: Seq<char>) -> Option<(Seq<char>, Seq<char>)> {
    let t = trim(line);
    if t.len() == 0 || t[0] == '#' {
        None
    } else {
        let i = find_char(t, '=');
        if i < 0 {
            None
        } else {
            let key = trim(t.subrange(0, i));
            let value = trim(t.subrange(i + 1, t.len() as int));
            if key.len() == 0 {
                None
            } else {
                Some((key, value))
            }
        }
    }
}

/// The pairs that a sequence of lines yields, in line order.
pub open spec fn parse_lines(lines: Seq<Seq<char>>) -> Seq<(Seq<char>, Seq<char>)>
    decreases lines.len(),
{
    if lines.len() == 0 {
        Seq::empty()
    } else {
        let rest = parse_lines(lines.drop_first());
        match parse_line(lines[0]) {
            Some(p) => seq![p] + rest,
            None => rest,
        }
    }
}

/// The pairs that a whole environment text yields.
pub open spec fn parse_env_text(s: Seq<char>) -> Seq<(Seq<char>, Seq<char>)> {
    parse_lines(split_lines(s))
}

/// Parse one line of the format, executably.
fn parse_line_in(line: &str) -> (r: Option<(String, String)>)
    ensures
        r.deep_view() == parse_line(line@),
{
    let t = trim_str(line);
    let ts = t.as_str();
    let n = ts.unicode_len();
    if n == 0 {
        return None;
    }
    if ts.get_char(0) == '#' {
        return None;
    }
    match find_char_in(ts, '=') {
        None => None,
        Some(i) => {
            let key = trim_str(ts.substring_char(0, i));
            let value = trim_str(ts.substring_char(i + 1, n));
            if key.as_str().unicode_len() == 0 {
                None
            } else {
                Some((key, value))
            }
        },
    }
}

/// Parse an environment text into its key/value pairs, in line order.
pub fn parse_environment_variables(env_str: &str) -> (r: Vec<(String, String)>)
    ensures
        r.deep_view() == parse_env_text(env_str@),
{
    let n = env_str.unicode_len();
    let mut r: Vec<(String, String)> = Vec::new();
    let mut pos: usize = 0;
    proof {
        assert(env_str@.subrange(0, n as int) =~= env_str@);
        assert(r.deep_view() + parse_env_text(env_str@) =~= parse_env_text(env_str@));
    }
    while pos < n
        invariant
            pos <= n,
            n == env_str@.len(),
            parse_env_text(env_str@) == r.deep_view() + parse_lines(
                split_lines(env_str@.subrange(pos as int, n as int)),
            ),
        decreases n - pos,
    {
        let ghost suffix = env_str@.subrange(pos as int, n as int);
        let ghost pairs_before = r.deep_view();
        let j = find_newline_from(env_str, pos);
        let line = env_str.substring_char(pos, j);
        proof {
            assert(line@ =~= suffix.subrange(0, j - pos));
            if j < n {
                assert(suffix[(j - pos) as int] == '\n');
                assert(forall|k: int| 0 <= k < j - pos ==> suffix[k] == env_str@[pos + k]);
                lemma_find_char_is_first(suffix, '\n', j - pos);
                assert(suffix.subrange(j - pos + 1, suffix.len() as int) =~= env_str@.subrange(
                    j + 1,
                    n as int,
                ));
                assert(split_lines(suffix) == seq![line@] + split_lines(
                    env_str@.subrange(j + 1, n as int),
                ));
            } else {
                assert(forall|k: int| 0 <= k < suffix.len() ==> suffix[k] == env_str@[pos + k]);
                lemma_find_char_absent(suffix, '\n');
                assert(line@ =~= suffix);
                assert(split_lines(suffix) == seq![suffix]);
            }
        }
        match parse_line_in(line) {
            Some(p) => {
                r.push(p);
                proof {
                    assert(r.deep_view() =~= pairs_before + seq![
                        (p.0@, p.1@),
                    ]);
                }
            },
            None => {},
        }
        proof {
            let rest = if j < n {
                env_str@.subrange(j + 1, n as int)
            } else {
                Seq::<char>::empty()
            };
            if j >= n {
                assert(env_str@.subrange(n as int, n as int) =~= Seq::<char>::empty());
            }
            assert(split_lines(suffix).drop_first() =~= split_lines(rest));
            assert(parse_lines(split_lines(suffix)) == match parse_line(line@) {
                Some(p) => seq![p] + parse_lines(split_lines(rest)),
                None => parse_lines(split_lines(rest)),
            });
        }
        if j < n {
            pos = j + 1;
        } else {
            pos = n;
        }
    }
    proof {
        assert(env_str@.subrange(n as int, n as int) =~= Seq::<char>::empty());
        assert(r.deep_view() =~= r.deep_view() + parse_lines(split_lines(Seq::<char>::empty())));
    }
    r
}

/// Whether a value is empty or whitespace-only, so that the supervisor
/// drops it from the overrides of a spawned process.
pub open spec fn is_blank(v: Seq<char>) -> bool {
    trim(v).len() == 0
}

/// The overrides that survive the supervisor's filter: exactly the pairs
/// whose value is not blank, kept unchanged and in order.
pub open spec fn kept_overrides(pairs: Seq<(Seq<char>, Seq<char>)>) -> Seq<(Seq<char>, Seq<char>)>
    decreases pairs.len(),
{
    if pairs.len() == 0 {
        Seq::empty()
    } else {
        let rest = kept_overrides(pairs.drop_first());
        if is_blank(pairs[0].1) {
            rest
        } else {
            seq![pairs[0]] + rest
        }
    }
}

/// Drop every override whose value is empty or whitespace-only; the rest
/// pass through untouched, in order.
pub fn filter_env_overrides(pairs: Vec<(String, String)>) -> (r: Vec<(String, String)>)
    ensures
        r.deep_view() == kept_overrides(pairs.deep_view()),
{
    let mut r: Vec<(String, String)> = Vec::new();
    let n = pairs.len();
    let mut i: usize = 0;
    proof {
        assert(pairs.deep_view().subrange(0, n as int) =~= pairs.deep_view());
        assert(r.deep_view() + kept_overrides(pairs.deep_view()) =~= kept_overrides(
            pairs.deep_view(),
        ));
    }
    while i < n
        invariant
            i <= n,
            n == pairs.len(),
            kept_overrides(pairs.deep_view()) == r.deep_view() + kept_overrides(
                pairs.deep_view().subrange(i as int, n as int),
            ),
        decreases n - i,
    {
        let ghost pairs_before = r.deep_view();
        let ghost rest = pairs.deep_view().subrange(i as int, n as int);
        let p = &pairs[i];
        let trimmed = trim_str(p.1.as_str());
        if trimmed.as_str().unicode_len() != 0 {
            r.push((p.0.clone(), p.1.clone()));
            proof {
                assert(r.deep_view() =~= pairs_before + seq![(p.0@, p.1@)]);
            }
        }
        proof {
            assert(rest[0] == pairs.deep_view()[i as int]);
            assert(rest.drop_first() =~= pairs.deep_view().subrange(i + 1, n as int));
        }
        i = i + 1;
    }
    proof {
        assert(pairs.deep_view().subrange(n as int, n as int) =~= Seq::<
            (Seq<char>, Seq<char>),
        >::empty());
        assert(r.deep_view() =~= r.deep_view() + kept_overrides(
            Seq::<(Seq<char>, Seq<char>)>::empty(),
        ));
    }
    r
}

} // verus!
