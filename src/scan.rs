use vstd::prelude::*;
use vstd::string::StringSliceAdditionalSpecFns;
use vstd::utf8::*;

use crate::lines::{
    lemma_boundary_after_ascii, lemma_boundary_at_ascii, lines_from, lines_of, substring, CR, LF,
};
use crate::matcher::{pattern_matches, Matcher};

verus! {

/// One line that matched: its zero-based index among the file's lines and
/// its text.
#[derive(Clone, Debug)]
pub struct Record {
    pub line_index: usize,
    pub text: String,
}

impl View for Record {
    type V = (nat, Seq<char>);

    open spec fn view(&self) -> (nat, Seq<char>) {
        (self.line_index as nat, self.text@)
    }
}

/// The records for the first lines of a file: each line that `pattern`
/// matches, with its index, in file order.
pub open spec fn matching_records(pattern: Seq<char>, lines: Seq<Seq<u8>>) -> Seq<(nat, Seq<char>)>
    decreases lines.len(),
{
    if lines.len() == 0 {
        seq![]
    } else {
        let prev = matching_records(pattern, lines.drop_last());
        let text = decode_utf8(lines.last());
        if pattern_matches(pattern, text) {
            prev.push(((lines.len() - 1) as nat, text))
        } else {
            prev
        }
    }
}

/// What scanning `content` for `pattern` yields: nothing when the bytes are
/// not valid UTF-8, else the matching lines in order.
pub open spec fn scan_model(pattern: Seq<char>, content: Seq<u8>) -> Seq<(nat, Seq<char>)> {
    if valid_utf8(content) {
        matching_records(pattern, lines_of(content))
    } else {
        seq![]
    }
}

/// The views of a vector of records.
pub open spec fn records_view(v: Seq<Record>) -> Seq<(nat, Seq<char>)> {
    v.map_values(|r: Record| r@)
}

/// Relies on `std::str::from_utf8`: it succeeds exactly on valid UTF-8 and
/// then borrows the same bytes as text.
#[verifier::external_body]
fn text_of(content: &[u8]) -> (r: Option<&str>)
    ensures
        r is Some <==> valid_utf8(content@),
        r matches Some(s) ==> s.spec_bytes() == content@,
{
    std::str::from_utf8(content).ok()
}

/// The matching lines of `content`, or none when it is not valid UTF-8.
/// Never fails.
pub fn scan(content: &[u8], matcher: &Matcher) -> (r: Vec<Record>)
    ensures
        records_view(r@) == scan_model(matcher@, content@),
{
    let text = match text_of(content) {
        None => return Vec::new(),
        Some(t) => t,
    };
    let ghost b = content@;
    let ghost pat = matcher@;
    let n = content.len();
    let mut out: Vec<Record> = Vec::new();
    let mut start: usize = 0;
    let mut count: usize = 0;
    let mut i: usize = 0;
    let ghost mut seen: Seq<Seq<u8>> = seq![];
    while i < n
        invariant
            n == b.len(),
            b == content@,
            text.spec_bytes() == b,
            valid_utf8(b),
            pat == matcher@,
            start <= i <= n,
            start == 0 || b[start - 1] == LF || b[start - 1] == CR,
            count == seen.len(),
            count <= i,
            seen + lines_from(b, start as int, i as int) == lines_of(b),
            records_view(out@) == matching_records(pat, seen),
        decreases n - i,
    {
        if content[i] == LF || content[i] == CR {
            let end = i;
            let next = if content[i] == CR && i + 1 < n && content[i + 1] == LF {
                i + 2
            } else {
                i + 1
            };
            proof {
                if start > 0 {
                    lemma_boundary_after_ascii(b, start - 1);
                } else {
                    is_char_boundary_start_end_of_seq(b);
                }
                lemma_boundary_at_ascii(b, end as int);
            }
            let line = substring(text, start, end);
            let ghost lb = b.subrange(start as int, end as int);
            let hit = matcher.matches(line.as_str());
            let ghost new_seen = seen.push(lb);
            assert(new_seen.drop_last() =~= seen);
            if hit {
                out.push(Record { line_index: count, text: line });
            }
            assert(records_view(out@) =~= matching_records(pat, new_seen));
            assert(lines_from(b, start as int, i as int) == seq![lb] + lines_from(
                b,
                next as int,
                next as int,
            ));
            assert(seen + lines_from(b, start as int, i as int) =~= new_seen + lines_from(
                b,
                next as int,
                next as int,
            ));
            proof {
                seen = new_seen;
            }
            count = count + 1;
            start = next;
            i = next;
        } else {
            i = i + 1;
        }
    }
    if start < n {
        proof {
            if start > 0 {
                lemma_boundary_after_ascii(b, start - 1);
            } else {
                is_char_boundary_start_end_of_seq(b);
            }
            is_char_boundary_start_end_of_seq(b);
        }
        let line = substring(text, start, n);
        let ghost lb = b.subrange(start as int, n as int);
        let hit = matcher.matches(line.as_str());
        let ghost new_seen = seen.push(lb);
        assert(new_seen.drop_last() =~= seen);
        if hit {
            out.push(Record { line_index: count, text: line });
        }
        assert(records_view(out@) =~= matching_records(pat, new_seen));
        assert(new_seen =~= lines_of(b));
    } else {
        assert(seen =~= lines_of(b));
    }
    out
}

/// The records of a scan come in strictly increasing line order, each one is
/// a line of the file that the pattern matches, with that line's text, and
/// every matching line is among them. A file that is not valid UTF-8 yields
/// no records.
pub proof fn lemma_scan_records_sound(pattern: Seq<char>, content: Seq<u8>)
    ensures
        ({
            let r = scan_model(pattern, content);
            let lines = lines_of(content);
            &&& !valid_utf8(content) ==> r.len() == 0
            &&& forall|i: int, j: int| 0 <= i < j < r.len() ==> r[i].0 < r[j].0
            &&& forall|i: int|
                0 <= i < r.len() ==> {
                    &&& valid_utf8(content)
                    &&& r[i].0 < lines.len()
                    &&& r[i].1 == decode_utf8(lines[r[i].0 as int])
                    &&& pattern_matches(pattern, r[i].1)
                }
            &&& valid_utf8(content) ==> forall|k: int|
                0 <= k < lines.len() && pattern_matches(pattern, decode_utf8(lines[k]))
                    ==> exists|i: int| 0 <= i < r.len() && r[i].0 == k
        }),
{
    if valid_utf8(content) {
        lemma_matching_records(pattern, lines_of(content));
    }
}

proof fn lemma_matching_records(pattern: Seq<char>, lines: Seq<Seq<u8>>)
    ensures
        ({
            let r = matching_records(pattern, lines);
            &&& forall|i: int, j: int| 0 <= i < j < r.len() ==> r[i].0 < r[j].0
            &&& forall|i: int|
                0 <= i < r.len() ==> {
                    &&& r[i].0 < lines.len()
                    &&& r[i].1 == decode_utf8(lines[r[i].0 as int])
                    &&& pattern_matches(pattern, r[i].1)
                }
            &&& forall|k: int|
                0 <= k < lines.len() && pattern_matches(pattern, decode_utf8(lines[k]))
                    ==> exists|i: int| 0 <= i < r.len() && r[i].0 == k
        }),
    decreases lines.len(),
{
    if lines.len() > 0 {
        let prefix = lines.drop_last();
        lemma_matching_records(pattern, prefix);
        let prev = matching_records(pattern, prefix);
        let r = matching_records(pattern, lines);
        assert forall|i: int| 0 <= i < prev.len() implies prev[i].0 < lines.len()
            && prev[i].1 == decode_utf8(lines[prev[i].0 as int]) by {
            assert(lines[prev[i].0 as int] == prefix[prev[i].0 as int]);
        }
        assert forall|k: int|
            0 <= k < lines.len() && pattern_matches(pattern, decode_utf8(lines[k])) implies exists|
            i: int,
        | 0 <= i < r.len() && r[i].0 == k by {
            if k < prefix.len() {
                assert(lines[k] == prefix[k]);
                let i = choose|i: int| 0 <= i < prev.len() && prev[i].0 == k;
                assert(r[i] == prev[i]);
            } else {
                assert(r[r.len() - 1].0 == k);
            }
        }
    }
}

} // verus!
