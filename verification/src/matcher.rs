//! The line matcher: splitting a text into lines and selecting the lines that
//! contain the query, case-sensitively or after ASCII lowercasing.

use vstd::prelude::*;
use vstd::string::StrSliceExecFns;

use crate::config::Config;
use crate::text::contains_at;
use crate::text::contains_substring;
use crate::text::lemma_lines_spec_step;
use crate::text::lines_spec;
use crate::text::lower_char;
use crate::text::lower_chars;

verus! {

/// A line matches a query either by direct substring containment or, in the
/// case-insensitive mode, by containment after lowercasing both sides.
pub open spec fn line_matches(line: Seq<char>, query: Seq<char>, case_sensitive: bool) -> bool {
    if case_sensitive {
        contains_substring(line, query)
    } else {
        contains_substring(lower_chars(line), lower_chars(query))
    }
}

fn lower_char_exec(c: char) -> (r: char)
    ensures
        r == lower_char(c),
{
    let u: u32 = c as u32;
    if 65 <= u && u <= 90 {
        ((u + 32) as u8) as char
    } else {
        c
    }
}

/// Does `query` occur in `line` starting exactly at position `i`, in the given
/// mode?
fn match_at(line: &str, query: &str, i: usize, case_sensitive: bool) -> (r: bool)
    requires
        i + query@.len() <= line@.len(),
        line@.len() <= usize::MAX,
    ensures
        case_sensitive ==> r == contains_at(line@, query@, i as int),
        !case_sensitive ==> r == contains_at(lower_chars(line@), lower_chars(query@), i as int),
{
    let ghost hay: Seq<char> = if case_sensitive {
        line@
    } else {
        lower_chars(line@)
    };
    let ghost needle: Seq<char> = if case_sensitive {
        query@
    } else {
        lower_chars(query@)
    };
    let qlen: usize = query.unicode_len();
    let mut j: usize = 0;
    while j < qlen
        invariant
            j <= qlen,
            qlen == query@.len(),
            i + qlen <= line@.len(),
            line@.len() <= usize::MAX,
            hay == (if case_sensitive { line@ } else { lower_chars(line@) }),
            needle == (if case_sensitive { query@ } else { lower_chars(query@) }),
            forall|k: int| 0 <= k < j ==> hay[i + k] == needle[k],
        decreases qlen - j,
    {
        let lc = line.get_char(i + j);
        let qc = query.get_char(j);
        let same = if case_sensitive {
            lc == qc
        } else {
            lower_char_exec(lc) == lower_char_exec(qc)
        };
        if !same {
            proof {
                assert(hay[i + j] != needle[j as int]);
                assert(!contains_at(hay, needle, i as int)) by {
                    if contains_at(hay, needle, i as int) {
                        assert(hay.subrange(i as int, i + needle.len())[j as int] == needle[j as int]);
                    }
                }
            }
            return false;
        }
        j += 1;
    }
    proof {
        assert(hay.subrange(i as int, i + needle.len()) =~= needle);
    }
    true
}

/// Does `query` occur anywhere in `line`, in the given mode?
fn line_contains(line: &str, query: &str, case_sensitive: bool) -> (r: bool)
    ensures
        r == line_matches(line@, query@, case_sensitive),
{
    let ghost hay: Seq<char> = if case_sensitive {
        line@
    } else {
        lower_chars(line@)
    };
    let ghost needle: Seq<char> = if case_sensitive {
        query@
    } else {
        lower_chars(query@)
    };
    let llen: usize = line.unicode_len();
    let qlen: usize = query.unicode_len();
    if qlen > llen {
        proof {
            assert forall|k: int| !contains_at(hay, needle, k) by {
                assert(hay.len() == llen && needle.len() == qlen);
            }
        }
        return false;
    }
    if qlen == 0 {
        proof {
            assert(hay.subrange(0, 0) =~= needle);
            assert(contains_at(hay, needle, 0));
        }
        return true;
    }
    let mut i: usize = 0;
    while i <= llen - qlen
        invariant
            0 < qlen <= llen,
            llen == line@.len(),
            qlen == query@.len(),
            i <= llen - qlen + 1,
            hay == (if case_sensitive { line@ } else { lower_chars(line@) }),
            needle == (if case_sensitive { query@ } else { lower_chars(query@) }),
            forall|k: int| 0 <= k < i ==> !contains_at(hay, needle, k),
        decreases llen - i,
    {
        if match_at(line, query, i, case_sensitive) {
            proof {
                assert(contains_at(hay, needle, i as int));
            }
            return true;
        }
        i += 1;
    }
    proof {
        assert forall|k: int| !contains_at(hay, needle, k) by {
            assert(hay.len() == llen && needle.len() == qlen);
        }
    }
    false
}

/// Split a text into its lines: the runs of characters between newline
/// separators, the separators excluded; an empty segment after a final
/// trailing newline yields no line. Each returned slice borrows from
/// `contents`.
pub fn split_lines<'a>(contents: &'a str) -> (r: Vec<&'a str>)
    ensures
        r.deep_view() == lines_spec(contents@),
{
    let n: usize = contents.unicode_len();
    let mut result: Vec<&'a str> = Vec::new();
    let mut start: usize = 0;
    let mut pos: usize = 0;
    proof {
        assert(contents@.subrange(0, n as int) =~= contents@);
        assert(result.deep_view() + lines_spec(contents@) =~= lines_spec(contents@));
    }
    while pos < n
        invariant
            start <= pos <= n,
            n == contents@.len(),
            forall|j: int| start <= j < pos ==> contents@[j] != '\n',
            lines_spec(contents@) == result.deep_view() + lines_spec(
                contents@.subrange(start as int, n as int),
            ),
        decreases n - pos,
    {
        let c = contents.get_char(pos);
        if c == '\n' {
            let line = contents.substring_char(start, pos);
            proof {
                let t = contents@.subrange(start as int, n as int);
                let k: int = pos - start;
                assert forall|j: int| 0 <= j < k implies t[j] != '\n' by {
                    assert(t[j] == contents@[start + j]);
                }
                assert(t[k as int] == contents@[pos as int]);
                lemma_lines_spec_step(t, k as int);
                assert(t.subrange(0, k as int) =~= line@);
                assert(t.subrange(k + 1, t.len() as int) =~= contents@.subrange(
                    pos + 1,
                    n as int,
                ));
            }
            let ghost old_dv = result.deep_view();
            result.push(line);
            proof {
                assert(result.deep_view() =~= old_dv + seq![line@]);
                assert(lines_spec(contents@) =~= result.deep_view() + lines_spec(
                    contents@.subrange(pos + 1, n as int),
                ));
            }
            start = pos + 1;
        }
        pos = pos + 1;
    }
    if start < n {
        let line = contents.substring_char(start, n);
        proof {
            let t = contents@.subrange(start as int, n as int);
            assert forall|j: int| 0 <= j < t.len() implies t[j] != '\n' by {
                assert(t[j] == contents@[start + j]);
            }
            lemma_lines_spec_step(t, t.len() as int);
            assert(t =~= line@);
        }
        let ghost old_dv = result.deep_view();
        result.push(line);
        proof {
            assert(result.deep_view() =~= old_dv + seq![line@]);
            assert(result.deep_view() =~= lines_spec(contents@));
        }
    } else {
        proof {
            let t = contents@.subrange(start as int, n as int);
            assert(t.len() == 0);
            lemma_lines_spec_step(t, 0);
            assert(result.deep_view() + lines_spec(t) =~= result.deep_view());
        }
    }
    result
}

/// The lines among `lines` that match `query` in the given mode, their order
/// kept.
pub open spec fn select_matching(
    lines: Seq<Seq<char>>,
    query: Seq<char>,
    case_sensitive: bool,
) -> Seq<Seq<char>> {
    lines.filter(|l: Seq<char>| line_matches(l, query, case_sensitive))
}

/// What `search` returns: the lines of `contents` that contain `query` as a
/// case-sensitive substring, in their original order.
pub open spec fn search_spec(query: Seq<char>, contents: Seq<char>) -> Seq<Seq<char>> {
    select_matching(lines_spec(contents), query, true)
}

/// What `search_case_insensitive` returns: the lines of `contents` that
/// contain `query` as a substring after ASCII lowercasing of both sides, in
/// their original order.
pub open spec fn search_case_insensitive_spec(query: Seq<char>, contents: Seq<char>) -> Seq<
    Seq<char>,
> {
    select_matching(lines_spec(contents), query, false)
}

/// The matching engine shared by both modes: keep exactly the lines of
/// `contents` that match `query`, in their original order.
pub fn search_lines<'a>(query: &str, contents: &'a str, case_sensitive: bool) -> (r: Vec<&'a str>)
    ensures
        r.deep_view() == select_matching(lines_spec(contents@), query@, case_sensitive),
{
    let lines = split_lines(contents);
    let mut result: Vec<&'a str> = Vec::new();
    let mut idx: usize = 0;
    proof {
        reveal(Seq::filter);
        assert(lines.deep_view().subrange(0, 0) =~= Seq::<Seq<char>>::empty());
        assert(result.deep_view() =~= select_matching(
            lines.deep_view().subrange(0, 0),
            query@,
            case_sensitive,
        ));
    }
    while idx < lines.len()
        invariant
            idx <= lines@.len(),
            lines@.len() == lines.deep_view().len(),
            lines.deep_view() == lines_spec(contents@),
            result.deep_view() == select_matching(
                lines.deep_view().subrange(0, idx as int),
                query@,
                case_sensitive,
            ),
        decreases lines@.len() - idx,
    {
        let line = lines[idx];
        let ghost dv = lines.deep_view();
        proof {
            reveal(Seq::filter);
            assert(dv[idx as int] == line@);
            assert(dv.subrange(0, idx + 1).drop_last() =~= dv.subrange(0, idx as int));
            assert(dv.subrange(0, idx + 1).last() == line@);
        }
        if line_contains(line, query, case_sensitive) {
            let ghost old_dv = result.deep_view();
            result.push(line);
            proof {
                assert(result.deep_view() =~= old_dv.push(line@));
            }
        }
        idx += 1;
    }
    proof {
        assert(lines.deep_view().subrange(0, idx as int) =~= lines.deep_view());
    }
    result
}

/// Every line of `contents` that contains `query` as a case-sensitive
/// substring, in the order the lines have in `contents`. Each returned slice
/// borrows from `contents`.
pub fn search<'a>(query: &str, contents: &'a str) -> (r: Vec<&'a str>)
    ensures
        r.deep_view() == search_spec(query@, contents@),
{
    search_lines(query, contents, true)
}

/// Every line of `contents` that contains `query` as a substring once both
/// sides are ASCII-lowercased, in the order the lines have in `contents`.
/// Each returned slice borrows from `contents`.
pub fn search_case_insensitive<'a>(query: &str, contents: &'a str) -> (r: Vec<&'a str>)
    ensures
        r.deep_view() == search_case_insensitive_spec(query@, contents@),
{
    search_lines(query, contents, false)
}

/// `m` lists, in strictly increasing order, a position in `sup` for each
/// element of `sub`: `sub` is a subsequence of `sup`, in `sup`'s order.
pub open spec fn increasing_index_map(m: Seq<int>, sub: Seq<Seq<char>>, sup: Seq<Seq<char>>) -> bool {
    &&& m.len() == sub.len()
    &&& forall|k: int| 0 <= k < m.len() ==> 0 <= #[trigger] m[k] < sup.len() && sub[k] == sup[m[k]]
    &&& forall|k: int| 0 <= k < m.len() - 1 ==> #[trigger] m[k] < m[k + 1]
}

/// The selected lines are a subsequence of `lines`, in the original order:
/// the returned map gives each kept line's position in `lines`, strictly
/// increasing.
pub proof fn lemma_select_matching_subsequence(
    lines: Seq<Seq<char>>,
    query: Seq<char>,
    case_sensitive: bool,
) -> (m: Seq<int>)
    ensures
        increasing_index_map(m, select_matching(lines, query, case_sensitive), lines),
    decreases lines.len(),
{
    reveal(Seq::filter);
    if lines.len() == 0 {
        Seq::empty()
    } else {
        let m0 = lemma_select_matching_subsequence(lines.drop_last(), query, case_sensitive);
        let sub0 = select_matching(lines.drop_last(), query, case_sensitive);
        assert forall|k: int| 0 <= k < m0.len() implies lines.drop_last()[m0[k]]
            == lines[m0[k]] by {}
        if line_matches(lines.last(), query, case_sensitive) {
            let m1 = m0.push(lines.len() - 1);
            assert(select_matching(lines, query, case_sensitive) == sub0.push(lines.last()));
            assert(increasing_index_map(m1, select_matching(lines, query, case_sensitive), lines));
            m1
        } else {
            assert(select_matching(lines, query, case_sensitive) == sub0);
            m0
        }
    }
}

/// Selection keeps exactly the matching lines: every selected line matches
/// and stands among `lines`, and every line of `lines` that matches is
/// selected.
pub proof fn lemma_select_matching_exact(
    lines: Seq<Seq<char>>,
    query: Seq<char>,
    case_sensitive: bool,
)
    ensures
        forall|i: int|
            0 <= i < select_matching(lines, query, case_sensitive).len() ==> line_matches(
                #[trigger] select_matching(lines, query, case_sensitive)[i],
                query,
                case_sensitive,
            ) && lines.contains(select_matching(lines, query, case_sensitive)[i]),
        forall|j: int|
            0 <= j < lines.len() && line_matches(#[trigger] lines[j], query, case_sensitive)
                ==> select_matching(lines, query, case_sensitive).contains(lines[j]),
    decreases lines.len(),
{
    reveal(Seq::filter);
    broadcast use vstd::seq_lib::group_filter_ensures;

    let sel = select_matching(lines, query, case_sensitive);
    let m = lemma_select_matching_subsequence(lines, query, case_sensitive);
    assert forall|i: int| 0 <= i < sel.len() implies line_matches(
        #[trigger] sel[i],
        query,
        case_sensitive,
    ) && lines.contains(sel[i]) by {
        assert(sel[i] == lines[m[i]]);
    }
}

/// Every line found by the case-sensitive search is also found by the
/// case-insensitive one: the latter's result is a superset of the former's.
pub proof fn lemma_case_insensitive_superset(query: Seq<char>, contents: Seq<char>)
    ensures
        forall|x: Seq<char>|
            search_spec(query, contents).contains(x) ==> #[trigger] search_case_insensitive_spec(
                query,
                contents,
            ).contains(x),
{
    broadcast use vstd::seq_lib::group_filter_ensures;

    let lines = lines_spec(contents);
    let sens = search_spec(query, contents);
    let insens = search_case_insensitive_spec(query, contents);
    lemma_select_matching_exact(lines, query, true);
    lemma_select_matching_exact(lines, query, false);
    assert forall|x: Seq<char>| sens.contains(x) implies #[trigger] insens.contains(x) by {
        let i: int = choose|i: int| 0 <= i < sens.len() && sens[i] == x;
        assert(line_matches(x, query, true));
        crate::text::lemma_contains_lower(x, query);
        assert(line_matches(x, query, false));
        let j: int = choose|j: int| 0 <= j < lines.len() && lines[j] == x;
        assert(insens.contains(lines[j]));
    }
}

/// Both search operations are pure: the result is a function of the query and
/// the text alone, so two runs on identical inputs yield identical,
/// order-preserving results.
pub proof fn lemma_search_idempotent(
    query: Seq<char>,
    contents: Seq<char>,
    case_sensitive: bool,
    r1: Seq<Seq<char>>,
    r2: Seq<Seq<char>>,
)
    requires
        r1 == select_matching(lines_spec(contents), query, case_sensitive),
        r2 == select_matching(lines_spec(contents), query, case_sensitive),
    ensures
        r1 == r2,
{
}

/// An empty text has no lines, so either search of it returns no lines.
pub proof fn lemma_empty_contents(query: Seq<char>, case_sensitive: bool)
    ensures
        select_matching(lines_spec(Seq::<char>::empty()), query, case_sensitive) == Seq::<
            Seq<char>,
        >::empty(),
{
    reveal(Seq::filter);
}

/// Every line matches when each line of `lines` matches; selection is then
/// the identity.
proof fn lemma_select_matching_all(lines: Seq<Seq<char>>, query: Seq<char>, case_sensitive: bool)
    requires
        forall|i: int| 0 <= i < lines.len() ==> line_matches(#[trigger] lines[i], query, case_sensitive),
    ensures
        select_matching(lines, query, case_sensitive) == lines,
    decreases lines.len(),
{
    reveal(Seq::filter);
    if lines.len() > 0 {
        lemma_select_matching_all(lines.drop_last(), query, case_sensitive);
        assert(select_matching(lines, query, case_sensitive) =~= lines.drop_last().push(
            lines.last(),
        ));
        assert(lines.drop_last().push(lines.last()) =~= lines);
    }
}

/// The empty query occurs in every line, so either search returns every line
/// of the text.
pub proof fn lemma_empty_query(contents: Seq<char>, case_sensitive: bool)
    ensures
        select_matching(lines_spec(contents), Seq::<char>::empty(), case_sensitive) == lines_spec(
            contents,
        ),
{
    let q = Seq::<char>::empty();
    let lines = lines_spec(contents);
    assert forall|i: int| 0 <= i < lines.len() implies line_matches(
        #[trigger] lines[i],
        q,
        case_sensitive,
    ) by {
        assert(lower_chars(q) =~= q);
        let hay: Seq<char> = if case_sensitive {
            lines[i]
        } else {
            lower_chars(lines[i])
        };
        assert(hay.subrange(0, 0) =~= q);
        assert(contains_at(hay, q, 0));
    }
    lemma_select_matching_all(lines, q, case_sensitive);
}

/// Run the search that a resolved configuration asks for: case-sensitive when
/// `config.case_sensitive` holds, case-insensitive otherwise.
pub fn search_with_config<'a>(config: &Config, contents: &'a str) -> (r: Vec<&'a str>)
    ensures
        r.deep_view() == select_matching(
            lines_spec(contents@),
            config.query@,
            config.case_sensitive,
        ),
{
    if config.case_sensitive {
        search(config.query.as_str(), contents)
    } else {
        search_case_insensitive(config.query.as_str(), contents)
    }
}

} // verus!
