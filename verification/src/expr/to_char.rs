//! Timestamps as text.

use std::fmt::Write;
use vstd::prelude::*;

verus! {

/// `pattern` stands in `text` at position `at`.
pub open spec fn stands_at(pattern: Seq<char>, text: Seq<char>, at: int) -> bool {
    at + pattern.len() <= text.len() && text.subrange(at, at + pattern.len()) == pattern
}

/// The longest of the first `n` patterns that stands in `text` at position `at`;
/// of patterns of one length the first.
pub open spec fn longest_at(patterns: Seq<Seq<char>>, n: int, text: Seq<char>, at: int) -> Option<int>
    decreases n,
{
    if n <= 0 {
        None
    } else {
        let before = longest_at(patterns, n - 1, text, at);
        if !stands_at(patterns[n - 1], text, at) {
            before
        } else {
            match before {
                Some(k) => if patterns[n - 1].len() > patterns[k].len() {
                    Some(n - 1)
                } else {
                    Some(k)
                },
                None => Some(n - 1),
            }
        }
    }
}

/// The text from position `at` on, with the patterns replaced: from left to
/// right, wherever a pattern stands, the longest one that stands there.
pub open spec fn replaced_from(patterns: Seq<Seq<char>>, with: Seq<Seq<char>>, text: Seq<char>, at: int) -> Seq<char>
    decreases text.len() - at,
{
    if at < 0 || at >= text.len() {
        Seq::empty()
    } else {
        match longest_at(patterns, patterns.len() as int, text, at) {
            Some(k) => if 0 < patterns[k].len() <= text.len() - at {
                with[k] + replaced_from(patterns, with, text, at + patterns[k].len())
            } else {
                Seq::empty()
            },
            None => seq![text[at]] + replaced_from(patterns, with, text, at + 1),
        }
    }
}

/// Texts by their characters.
pub open spec fn chars_of(texts: Seq<&'static str>) -> Seq<Seq<char>> {
    Seq::new(texts.len(), |i: int| texts[i]@)
}

/// `AhoCorasick::replace_all`, built for leftmost-longest matches with the case
/// of letters told apart, replaces the patterns in the text by the texts at the
/// same positions. It panics unless there is one such text per pattern.
#[verifier::external_body]
fn replace_leftmost_longest(patterns: &Vec<&'static str>, with: &Vec<&'static str>, text: &str) -> (r: String)
    requires
        patterns@.len() == with@.len(),
        forall|i: int| 0 <= i < patterns@.len() ==> (#[trigger] patterns@[i])@.len() > 0,
    ensures
        r@ == replaced_from(chars_of(patterns@), chars_of(with@), text@, 0),
{
    aho_corasick::AhoCorasickBuilder::new()
        .ascii_case_insensitive(false)
        .match_kind(aho_corasick::MatchKind::LeftmostLongest)
        .build(patterns)
        .replace_all(text, with)
}

/// The parts of a timestamp in the patterns of PostgreSQL.
pub open spec fn pg_patterns() -> Seq<Seq<char>> {
    seq![
        "HH24"@,
        "HH12"@,
        "HH"@,
        "MI"@,
        "SS"@,
        "YYYY"@,
        "YY"@,
        "IYYY"@,
        "IY"@,
        "MM"@,
        "DD"@,
    ]
}

/// The same parts in the patterns of chrono.
pub open spec fn chrono_patterns() -> Seq<Seq<char>> {
    seq!["%H"@, "%I"@, "%I"@, "%M"@, "%S"@, "%Y"@, "%Y"@, "%G"@, "%g"@, "%m"@, "%d"@]
}

/// The chrono pattern for a PostgreSQL pattern.
pub open spec fn compiled(tmpl: Seq<char>) -> Seq<char> {
    replaced_from(pg_patterns(), chrono_patterns(), tmpl, 0)
}

/// Compile the pg pattern to chrono pattern.
pub fn compile_pattern_to_chrono(tmpl: &str) -> (r: String)
    ensures
        r@ == compiled(tmpl@),
{
    let patterns: Vec<&'static str> = vec![
        "HH24", "HH12", "HH", "MI", "SS", "YYYY", "YY", "IYYY", "IY", "MM", "DD",
    ];
    let with: Vec<&'static str> = vec!["%H", "%I", "%I", "%M", "%S", "%Y", "%Y", "%G", "%g", "%m", "%d"];
    proof {
        reveal_strlit("HH24");
        reveal_strlit("HH12");
        reveal_strlit("HH");
        reveal_strlit("MI");
        reveal_strlit("SS");
        reveal_strlit("YYYY");
        reveal_strlit("YY");
        reveal_strlit("IYYY");
        reveal_strlit("IY");
        reveal_strlit("MM");
        reveal_strlit("DD");
        assert(chars_of(patterns@) =~= pg_patterns());
        assert(chars_of(with@) =~= chrono_patterns());
    }
    replace_leftmost_longest(&patterns, &with, tmpl)
}

/// A timestamp, in seconds and nanoseconds since 1970, in a chrono pattern.
/// There is none if the timestamp is out of range or the pattern is not one.
pub uninterp spec fn chrono_shown(secs: i64, nanos: u32, pattern: Seq<char>) -> Option<Seq<char>>;

/// `chrono::NaiveDateTime::format` writes a timestamp in a pattern. What it
/// writes depends on the two alone; which patterns it takes is left unsaid.
#[verifier::external_body]
pub(crate) fn chrono_format(secs: i64, nanos: u32, pattern: &str) -> (r: Option<String>)
    ensures
        chrono_shown(secs, nanos, pattern@) == match r {
            Some(s) => Some(s@),
            None => None,
        },
{
    let shown = chrono::DateTime::from_timestamp(secs, nanos)?.naive_utc().format(pattern);
    let mut s = String::new();
    write!(s, "{}", shown).ok()?;
    Some(s)
}

/// A timestamp in a PostgreSQL pattern. There is none if the timestamp is out of
/// range or the pattern is not one that can be written.
pub fn to_char_timestamp(secs: i64, nanos: u32, tmpl: &str) -> (r: Option<String>)
    ensures
        chrono_shown(secs, nanos, compiled(tmpl@)) == match r {
            Some(s) => Some(s@),
            None => None,
        },
{
    let pattern = compile_pattern_to_chrono(tmpl);
    chrono_format(secs, nanos, pattern.as_str())
}

/// Where no pattern stands anywhere, the text stays as it is.
pub proof fn law_plain_text_stays(text: Seq<char>)
    requires
        forall|at: int| 0 <= at < text.len() ==> longest_at(pg_patterns(), pg_patterns().len() as int, text, at) is None,
    ensures
        compiled(text) == text,
{
    lemma_plain_from(text, 0);
    assert(text.subrange(0, text.len() as int) =~= text);
}

proof fn lemma_plain_from(text: Seq<char>, at: int)
    requires
        0 <= at <= text.len(),
        forall|k: int| 0 <= k < text.len() ==> longest_at(pg_patterns(), pg_patterns().len() as int, text, k) is None,
    ensures
        replaced_from(pg_patterns(), chrono_patterns(), text, at) == text.subrange(at, text.len() as int),
    decreases text.len() - at,
{
    if at < text.len() {
        lemma_plain_from(text, at + 1);
        assert(longest_at(pg_patterns(), pg_patterns().len() as int, text, at) is None);
        assert(seq![text[at]] + text.subrange(at + 1, text.len() as int) =~= text.subrange(at, text.len() as int));
    } else {
        assert(text.subrange(at, text.len() as int) =~= Seq::empty());
    }
}

proof fn lemma_longest(patterns: Seq<Seq<char>>, n: int, text: Seq<char>, at: int)
    requires
        0 <= n <= patterns.len(),
    ensures
        match longest_at(patterns, n, text, at) {
            Some(k) => 0 <= k < n && stands_at(patterns[k], text, at) && forall|j: int|
                0 <= j < n && stands_at(#[trigger] patterns[j], text, at) ==> patterns[j].len() <= patterns[k].len(),
            None => forall|j: int| 0 <= j < n ==> !stands_at(#[trigger] patterns[j], text, at),
        },
    decreases n,
{
    if n > 0 {
        lemma_longest(patterns, n - 1, text, at);
    }
}

proof fn lemma_longest_shifts(patterns: Seq<Seq<char>>, n: int, text: Seq<char>, by: int, at: int)
    requires
        0 <= n <= patterns.len(),
        0 <= by <= text.len(),
        0 <= at,
    ensures
        longest_at(patterns, n, text.skip(by), at) == longest_at(patterns, n, text, by + at),
    decreases n,
{
    if n > 0 {
        lemma_longest_shifts(patterns, n - 1, text, by, at);
        let p = patterns[n - 1];
        if by + at + p.len() <= text.len() {
            assert(text.skip(by).subrange(at, at + p.len()) =~= text.subrange(by + at, by + at + p.len()));
        }
    }
}

proof fn lemma_replaced_shifts(patterns: Seq<Seq<char>>, with: Seq<Seq<char>>, text: Seq<char>, by: int, at: int)
    requires
        0 <= by <= text.len(),
        0 <= at,
    ensures
        replaced_from(patterns, with, text.skip(by), at) == replaced_from(patterns, with, text, by + at),
    decreases text.len() - by - at,
{
    if at < text.skip(by).len() {
        lemma_longest_shifts(patterns, patterns.len() as int, text, by, at);
        match longest_at(patterns, patterns.len() as int, text, by + at) {
            Some(k) => {
                if 0 < patterns[k].len() <= text.len() - by - at {
                    lemma_replaced_shifts(patterns, with, text, by, at + patterns[k].len());
                }
            },
            None => {
                lemma_replaced_shifts(patterns, with, text, by, at + 1);
            },
        }
    }
}

/// Where a text begins with a pattern, and with no longer one, the pattern is replaced and the rest is
/// compiled by itself.
pub proof fn law_longest_pattern_is_replaced(text: Seq<char>, k: int)
    requires
        0 <= k < pg_patterns().len(),
        stands_at(pg_patterns()[k], text, 0),
        forall|j: int|
            0 <= j < pg_patterns().len() && j != k && stands_at(#[trigger] pg_patterns()[j], text, 0)
                ==> pg_patterns()[j].len() < pg_patterns()[k].len(),
        pg_patterns()[k].len() > 0,
    ensures
        compiled(text) == chrono_patterns()[k] + compiled(text.skip(pg_patterns()[k].len() as int)),
{
    let n = pg_patterns().len() as int;
    lemma_longest(pg_patterns(), n, text, 0);
    assert(longest_at(pg_patterns(), n, text, 0) == Some(k)) by {
        assert(stands_at(pg_patterns()[k], text, 0));
    }
    lemma_replaced_shifts(pg_patterns(), chrono_patterns(), text, pg_patterns()[k].len() as int, 0);
}

/// Where a text begins with no pattern, its first character stays and the rest is compiled by itself.
pub proof fn law_other_characters_stay(text: Seq<char>)
    requires
        text.len() > 0,
        forall|j: int| 0 <= j < pg_patterns().len() ==> !stands_at(#[trigger] pg_patterns()[j], text, 0),
    ensures
        compiled(text) == seq![text[0]] + compiled(text.skip(1)),
{
    lemma_longest(pg_patterns(), pg_patterns().len() as int, text, 0);
    lemma_replaced_shifts(pg_patterns(), chrono_patterns(), text, 1, 0);
}

/// The hour of the day, the minute, the second, the year, the week-based year, the month and the day are
/// replaced by what chrono calls them, whatever is behind them; where a longer pattern may begin, it has to
/// be another one that is behind.
pub proof fn law_patterns_of_postgres(rest: Seq<char>)
    ensures
        compiled("HH24"@ + rest) == "%H"@ + compiled(rest),
        compiled("HH12"@ + rest) == "%I"@ + compiled(rest),
        rest.len() > 0 && rest[0] != '2' && rest[0] != '1' ==> compiled("HH"@ + rest) == "%I"@ + compiled(rest),
        compiled("MI"@ + rest) == "%M"@ + compiled(rest),
        compiled("SS"@ + rest) == "%S"@ + compiled(rest),
        compiled("YYYY"@ + rest) == "%Y"@ + compiled(rest),
        rest.len() > 0 && rest[0] != 'Y' ==> compiled("YY"@ + rest) == "%Y"@ + compiled(rest),
        compiled("IYYY"@ + rest) == "%G"@ + compiled(rest),
        rest.len() > 0 && rest[0] != 'Y' ==> compiled("IY"@ + rest) == "%g"@ + compiled(rest),
        compiled("MM"@ + rest) == "%m"@ + compiled(rest),
        compiled("DD"@ + rest) == "%d"@ + compiled(rest),
{
    lemma_pattern_replaced(rest, 0);
    lemma_pattern_replaced(rest, 1);
    if rest.len() > 0 && rest[0] != '2' && rest[0] != '1' {
        lemma_pattern_replaced(rest, 2);
    }
    lemma_pattern_replaced(rest, 3);
    lemma_pattern_replaced(rest, 4);
    lemma_pattern_replaced(rest, 5);
    if rest.len() > 0 && rest[0] != 'Y' {
        lemma_pattern_replaced(rest, 6);
        lemma_pattern_replaced(rest, 8);
    }
    lemma_pattern_replaced(rest, 7);
    lemma_pattern_replaced(rest, 9);
    lemma_pattern_replaced(rest, 10);
}

#[verifier::rlimit(60)]
proof fn lemma_pattern_replaced(rest: Seq<char>, k: int)
    requires
        0 <= k < 11,
        k == 2 ==> rest.len() > 0 && rest[0] != '2' && rest[0] != '1',
        k == 6 || k == 8 ==> rest.len() > 0 && rest[0] != 'Y',
    ensures
        compiled(pg_patterns()[k] + rest) == chrono_patterns()[k] + compiled(rest),
{
    reveal_strlit("HH24");
    reveal_strlit("HH12");
    reveal_strlit("HH");
    reveal_strlit("MI");
    reveal_strlit("SS");
    reveal_strlit("YYYY");
    reveal_strlit("YY");
    reveal_strlit("IYYY");
    reveal_strlit("IY");
    reveal_strlit("MM");
    reveal_strlit("DD");
    let p = pg_patterns()[k];
    let text = p + rest;
    assert(text.subrange(0, p.len() as int) =~= p);
    assert forall|j: int|
        0 <= j < pg_patterns().len() && j != k && stands_at(#[trigger] pg_patterns()[j], text, 0) implies pg_patterns()[j].len()
        < p.len() by {
        let q = pg_patterns()[j];
        let t = text.subrange(0, q.len() as int);
        assert(t == q);
        assert(t[0] == text[0] && t[1] == text[1]);
        if q.len() == 4 {
            assert(t[2] == text[2] && t[3] == text[3]);
        }
    }
    law_longest_pattern_is_replaced(text, k);
    assert(text.skip(p.len() as int) =~= rest);
}

} // verus!
