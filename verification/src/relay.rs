//! The output relay: one process stream, consumed line by line, forwarded
//! to the event sink as tagged lines. A relay has a fixed severity — `Info`
//! for standard output, `Error` for standard error — and preserves the
//! source order of its stream. Lines that cannot be decoded as text are
//! skipped; they never abort the relay.

use vstd::prelude::*;

use crate::text::split_lines;
use crate::text::find_newline_from;
use crate::text::lemma_find_char_absent;
use crate::text::lemma_find_char_is_first;

verus! {

/// The severity tag of a relayed line: `Info` for standard output,
/// `Error` for standard error.
#[derive(Debug, Clone, Copy, PartialEq, Eq, Structural)]
pub enum Severity {
    Info,
    Error,
}

/// One unit of relayed output: a single line, stripped of its terminator,
/// tagged with its stream's severity.
#[derive(Debug, Clone, PartialEq, Eq)]
pub struct OutputLine {
    pub severity: Severity,
    pub text: String,
}

impl OutputLine {
    /// The mathematical content of a relayed line.
    pub open spec fn model(&self) -> (Severity, Seq<char>) {
        (self.severity, self.text@)
    }
}

/// The contents of a batch of relayed lines.
pub open spec fn line_models(ls: Seq<OutputLine>) -> Seq<(Severity, Seq<char>)> {
    ls.map_values(|l: OutputLine| l.model())
}

/// A line with its terminating carriage return, if any, removed; the line
/// feed itself was already consumed by the line split.
pub open spec fn strip_cr(line: Seq<char>) -> Seq<char> {
    if line.len() > 0 && line.last() == '\r' {
        line.drop_last()
    } else {
        line
    }
}

/// What the relay hands to the sink for a decoded stream text: its lines
/// in source order, each stripped of its terminator and tagged with the
/// relay's severity.
pub open spec fn relayed_text(sev: Severity, text: Seq<char>) -> Seq<(Severity, Seq<char>)> {
    split_lines(text).map_values(|l: Seq<char>| (sev, strip_cr(l)))
}

/// What the relay hands to the sink for a stream read as one decode
/// attempt per line: every decoded line in source order, tagged with the
/// relay's severity; undecodable lines are skipped.
pub open spec fn relayed_decoded(sev: Severity, decoded: Seq<Option<Seq<char>>>) -> Seq<
    (Severity, Seq<char>),
>
    decreases decoded.len(),
{
    if decoded.len() == 0 {
        Seq::empty()
    } else {
        let rest = relayed_decoded(sev, decoded.drop_first());
        match decoded[0] {
            Some(t) => seq![(sev, t)] + rest,
            None => rest,
        }
    }
}

/// Relay one stream given as one decode attempt per line, as a worker that
/// reads the stream line by line produces it: decoded lines pass through
/// in order under the relay's severity, undecodable ones are skipped.
pub fn relay_decoded(sev: Severity, decoded: Vec<Option<String>>) -> (out: Vec<OutputLine>)
    ensures
        line_models(out@) == relayed_decoded(sev, decoded.deep_view()),
{
    let mut out: Vec<OutputLine> = Vec::new();
    let n = decoded.len();
    let mut i: usize = 0;
    proof {
        assert(decoded.deep_view().subrange(0, n as int) =~= decoded.deep_view());
        assert(line_models(out@) + relayed_decoded(sev, decoded.deep_view()) =~= relayed_decoded(
            sev,
            decoded.deep_view(),
        ));
    }
    while i < n
        invariant
            i <= n,
            n == decoded.len(),
            relayed_decoded(sev, decoded.deep_view()) == line_models(out@) + relayed_decoded(
                sev,
                decoded.deep_view().subrange(i as int, n as int),
            ),
        decreases n - i,
    {
        let ghost models_before = line_models(out@);
        let ghost rest = decoded.deep_view().subrange(i as int, n as int);
        match &decoded[i] {
            Some(t) => {
                let line = OutputLine { severity: sev, text: t.clone() };
                out.push(line);
                proof {
                    assert(line_models(out@) =~= models_before + seq![(sev, t@)]);
                }
            },
            None => {},
        }
        proof {
            assert(rest[0] == decoded.deep_view()[i as int]);
            assert(rest.drop_first() =~= decoded.deep_view().subrange(i + 1, n as int));
        }
        i = i + 1;
    }
    proof {
        assert(decoded.deep_view().subrange(n as int, n as int) =~= Seq::<
            Option<Seq<char>>,
        >::empty());
        assert(line_models(out@) =~= line_models(out@) + relayed_decoded(
            sev,
            Seq::<Option<Seq<char>>>::empty(),
        ));
    }
    out
}

/// Relay one stream given whole as decoded text: split it into lines,
/// strip each line's terminator, tag each with the relay's severity, in
/// source order.
pub fn relay_text(sev: Severity, text: &str) -> (out: Vec<OutputLine>)
    ensures
        line_models(out@) == relayed_text(sev, text@),
{
    let n = text.unicode_len();
    let mut out: Vec<OutputLine> = Vec::new();
    let mut pos: usize = 0;
    proof {
        assert(text@.subrange(0, n as int) =~= text@);
        assert(line_models(out@) + relayed_text(sev, text@) =~= relayed_text(sev, text@));
    }
    while pos < n
        invariant
            pos <= n,
            n == text@.len(),
            relayed_text(sev, text@) == line_models(out@) + relayed_text(
                sev,
                text@.subrange(pos as int, n as int),
            ),
        decreases n - pos,
    {
        let ghost suffix = text@.subrange(pos as int, n as int);
        let ghost models_before = line_models(out@);
        let j = find_newline_from(text, pos);
        let raw_end = if j > pos && text.get_char(j - 1) == '\r' {
            j - 1
        } else {
            j
        };
        let stripped = text.substring_char(pos, raw_end);
        let ghost line = if j < n {
            suffix.subrange(0, j - pos)
        } else {
            suffix
        };
        proof {
            if j < n {
                assert(suffix[(j - pos) as int] == '\n');
                lemma_find_char_is_first(suffix, '\n', j - pos);
                assert(suffix.subrange(j - pos + 1, suffix.len() as int) =~= text@.subrange(
                    j + 1,
                    n as int,
                ));
                assert(split_lines(suffix) == seq![line] + split_lines(
                    text@.subrange(j + 1, n as int),
                ));
            } else {
                lemma_find_char_absent(suffix, '\n');
                assert(split_lines(suffix) == seq![suffix]);
            }
            assert(stripped@ =~= strip_cr(line));
        }
        let entry = OutputLine { severity: sev, text: stripped.to_owned() };
        out.push(entry);
        proof {
            assert(line_models(out@) =~= models_before + seq![(sev, strip_cr(line))]);
            let rest = if j < n {
                text@.subrange(j + 1, n as int)
            } else {
                Seq::<char>::empty()
            };
            if j >= n {
                assert(text@.subrange(n as int, n as int) =~= Seq::<char>::empty());
            }
            assert(split_lines(suffix).drop_first() =~= split_lines(rest));
            assert(relayed_text(sev, suffix) =~= seq![(sev, strip_cr(line))] + relayed_text(
                sev,
                rest,
            ));
        }
        if j < n {
            pos = j + 1;
        } else {
            pos = n;
        }
    }
    proof {
        assert(text@.subrange(n as int, n as int) =~= Seq::<char>::empty());
        assert(split_lines(Seq::<char>::empty()) =~= Seq::<Seq<char>>::empty());
        assert(relayed_text(sev, Seq::<char>::empty()) =~= Seq::<(Severity, Seq<char>)>::empty());
        assert(line_models(out@) =~= line_models(out@) + relayed_text(
            sev,
            Seq::<char>::empty(),
        ));
    }
    out
}

/// Order preservation. When every line of a stream decodes, the sink
/// receives exactly one line per source line, in source order, each under
/// the relay's severity.
pub proof fn lemma_relay_preserves_order(sev: Severity, decoded: Seq<Option<Seq<char>>>)
    requires
        forall|i: int| 0 <= i < decoded.len() ==> decoded[i] is Some,
    ensures
        relayed_decoded(sev, decoded).len() == decoded.len(),
        forall|i: int| 0 <= i < decoded.len() ==> relayed_decoded(sev, decoded)[i] == (
            sev,
            decoded[i]->Some_0,
        ),
    decreases decoded.len(),
{
    if decoded.len() > 0 {
        let rest = decoded.drop_first();
        lemma_relay_preserves_order(sev, rest);
        assert(forall|i: int| 0 <= i < rest.len() ==> rest[i] == decoded[i + 1]);
        assert(decoded[0] is Some);
        match decoded[0] {
            Some(t) => {
                assert(relayed_decoded(sev, decoded) == seq![(sev, t)] + relayed_decoded(
                    sev,
                    rest,
                ));
                assert forall|i: int|
                    0 <= i < decoded.len() implies relayed_decoded(sev, decoded)[i] == (
                    sev,
                    decoded[i]->Some_0,
                ) by {
                    if i > 0 {
                        assert(relayed_decoded(sev, decoded)[i] == relayed_decoded(
                            sev,
                            rest,
                        )[i - 1]);
                        assert(decoded[i] == rest[i - 1]);
                        assert(relayed_decoded(sev, rest)[i - 1] == (sev, rest[i - 1]->Some_0));
                    }
                }
            },
            None => {},
        }
    }
}

} // verus!
