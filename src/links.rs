//! The link syntax of notes: a name made of ASCII letters and hyphens between
//! `[[` and `]]`.

use vstd::prelude::*;
use vstd::string::StrSliceExecFns;

verus! {

/// A character that may stand inside `[[` ... `]]`.
pub open spec fn is_link_char(c: char) -> bool {
    ('a' <= c && c <= 'z') || ('A' <= c && c <= 'Z') || c == '-'
}

/// Length of the longest run of link characters in `s` starting at `j`.
pub open spec fn run_len(s: Seq<char>, j: int) -> nat
    decreases s.len() - j,
{
    if 0 <= j < s.len() && is_link_char(s[j]) {
        1 + run_len(s, j + 1)
    } else {
        0
    }
}

/// A link starts at `i`: `[[`, the longest run of link characters, then `]]`.
pub open spec fn link_at(s: Seq<char>, i: int) -> bool {
    let e = i + 2 + run_len(s, i + 2);
    &&& 0 <= i
    &&& e + 1 < s.len()
    &&& s[i] == '[' && s[i + 1] == '['
    &&& s[e] == ']' && s[e + 1] == ']'
}

/// The links of `s` found by scanning left to right from `i`, each match
/// resuming the scan right after its closing `]]`.
pub open spec fn links_from(s: Seq<char>, i: int) -> Seq<Seq<char>>
    decreases s.len() - i,
{
    if i < 0 || i >= s.len() {
        Seq::empty()
    } else if link_at(s, i) {
        let e = i + 2 + run_len(s, i + 2);
        seq![s.subrange(i + 2, e)] + links_from(s, e + 2)
    } else {
        links_from(s, i + 1)
    }
}

/// All links of a text, in order of appearance, duplicates kept.
pub open spec fn links(s: Seq<char>) -> Seq<Seq<char>> {
    links_from(s, 0)
}

/// The characters of `text`, one by one.
fn chars_of(text: &str) -> (r: Vec<char>)
    ensures
        r@ == text@,
{
    broadcast use vstd::string::axiom_spec_iter;

    let mut out: Vec<char> = Vec::new();
    for c in it: text.chars()
        invariant
            it.seq() == text@,
            out@ == it.seq().take(it.index() as int),
    {
        out.push(c);
    }
    out
}

fn is_link_char_exec(c: char) -> (r: bool)
    ensures
        r == is_link_char(c),
{
    ('a' <= c && c <= 'z') || ('A' <= c && c <= 'Z') || c == '-'
}

proof fn lemma_run_len_bound(s: Seq<char>, j: int)
    requires
        0 <= j <= s.len(),
    ensures
        j + run_len(s, j) <= s.len(),
        forall|k: int| j <= k < j + run_len(s, j) ==> is_link_char(#[trigger] s[k]),
    decreases s.len() - j,
{
    if j < s.len() && is_link_char(s[j]) {
        lemma_run_len_bound(s, j + 1);
    }
}

/// Extracts the links of `text`, in order of appearance, duplicates kept.
pub fn extract_links(text: &str) -> (r: Vec<String>)
    ensures
        r@.map_values(|l: String| l@) == links(text@),
{
    let cs = chars_of(text);
    let n = cs.len();
    let ghost s = text@;
    let mut out: Vec<String> = Vec::new();
    let mut i: usize = 0;
    while i < n
        invariant
            cs@ == s,
            s == text@,
            n == s.len(),
            i <= n,
            out@.map_values(|l: String| l@) + links_from(s, i as int) == links(s),
        decreases n - i,
    {
        if i + 1 < n && cs[i] == '[' && cs[i + 1] == '[' {
            let start = i + 2;
            let mut e: usize = start;
            proof {
                lemma_run_len_bound(s, start as int);
            }
            while e < n && is_link_char_exec(cs[e])
                invariant
                    cs@ == s,
                    s == text@,
                    n == s.len(),
                    start <= e <= n,
                    e + run_len(s, e as int) == start + run_len(s, start as int),
                decreases n - e,
            {
                e = e + 1;
            }
            if e < n && e + 1 < n && cs[e] == ']' && cs[e + 1] == ']' {
                assert(link_at(s, i as int));
                let l = text.substring_char(start, e).to_owned();
                let ghost before = out@;
                out.push(l);
                assert(out@.map_values(|l: String| l@) =~= before.map_values(|l: String| l@).push(
                    s.subrange(start as int, e as int),
                ));
                assert(out@.map_values(|l: String| l@) + links_from(s, e + 2) == links(s));
                i = e + 2;
            } else {
                assert(!link_at(s, i as int));
                i = i + 1;
            }
        } else {
            i = i + 1;
        }
    }
    out
}

/// The link found at `i`: the run of link characters after the `[[`.
pub open spec fn link_text(s: Seq<char>, i: int) -> Seq<char> {
    s.subrange(i + 2, i + 2 + run_len(s, i + 2))
}

/// Where each link of `links_from(s, i)` starts.
pub open spec fn link_starts_from(s: Seq<char>, i: int) -> Seq<int>
    decreases s.len() - i,
{
    if i < 0 || i >= s.len() {
        Seq::empty()
    } else if link_at(s, i) {
        seq![i] + link_starts_from(s, i + 2 + run_len(s, i + 2) + 2)
    } else {
        link_starts_from(s, i + 1)
    }
}

proof fn lemma_links_from_shape(s: Seq<char>, i: int)
    requires
        0 <= i,
    ensures
        link_starts_from(s, i).len() == links_from(s, i).len(),
        forall|k: int|
            0 <= k < links_from(s, i).len() ==> i <= #[trigger] link_starts_from(s, i)[k] && link_at(
                s,
                link_starts_from(s, i)[k],
            ) && links_from(s, i)[k] == link_text(s, link_starts_from(s, i)[k]) && links_from(
                s,
                i,
            )[k].len() == run_len(s, link_starts_from(s, i)[k] + 2),
        forall|k: int|
            0 <= k < links_from(s, i).len() - 1 ==> #[trigger] link_starts_from(s, i)[k] + 4
                + links_from(s, i)[k].len() <= link_starts_from(s, i)[k + 1],
    decreases s.len() - i,
{
    if i < s.len() {
        if link_at(s, i) {
            let e = i + 2 + run_len(s, i + 2);
            lemma_links_from_shape(s, e + 2);
            lemma_run_len_bound(s, i + 2);
            assert forall|k: int| 0 <= k < links_from(s, i).len() implies i
                <= #[trigger] link_starts_from(s, i)[k] && link_at(s, link_starts_from(s, i)[k])
                && links_from(s, i)[k] == link_text(s, link_starts_from(s, i)[k]) && links_from(
                s,
                i,
            )[k].len() == run_len(s, link_starts_from(s, i)[k] + 2) by {
                if k > 0 {
                    assert(links_from(s, i)[k] == links_from(s, e + 2)[k - 1]);
                    assert(link_starts_from(s, i)[k] == link_starts_from(s, e + 2)[k - 1]);
                }
            }
            assert forall|k: int| 0 <= k < links_from(s, i).len() - 1 implies #[trigger] link_starts_from(
                s,
                i,
            )[k] + 4 + links_from(s, i)[k].len() <= link_starts_from(s, i)[k + 1] by {
                assert(link_starts_from(s, i)[k + 1] == link_starts_from(s, e + 2)[k]);
                if k > 0 {
                    assert(links_from(s, i)[k] == links_from(s, e + 2)[k - 1]);
                    assert(link_starts_from(s, i)[k] == link_starts_from(s, e + 2)[k - 1]);
                }
            }
        } else {
            lemma_links_from_shape(s, i + 1);
            assert(links_from(s, i) == links_from(s, i + 1));
            assert(link_starts_from(s, i) == link_starts_from(s, i + 1));
        }
    }
}

/// Every extracted link stands in the text between `[[` and `]]` and is made
/// of ASCII letters and hyphens only; the bracketed spans of successive links
/// follow one another left to right without overlapping.
pub proof fn lemma_links_are_bracketed_words(s: Seq<char>)
    ensures
        link_starts_from(s, 0).len() == links(s).len(),
        forall|k: int|
            #![trigger links(s)[k]]
            0 <= k < links(s).len() ==> {
                let j = link_starts_from(s, 0)[k];
                &&& 0 <= j && j + 4 + links(s)[k].len() <= s.len()
                &&& s.subrange(j, j + 4 + links(s)[k].len()) == seq!['[', '['] + links(s)[k] + seq![
                    ']',
                    ']',
                ]
            },
        forall|k: int, c: int|
            0 <= k < links(s).len() && 0 <= c < links(s)[k].len() ==> is_link_char(
                #[trigger] links(s)[k][c],
            ),
        forall|k: int|
            0 <= k < links(s).len() - 1 ==> #[trigger] link_starts_from(s, 0)[k] + 4
                + links(s)[k].len() <= link_starts_from(s, 0)[k + 1],
{
    lemma_links_from_shape(s, 0);
    assert forall|k: int| #![trigger links(s)[k]] 0 <= k < links(s).len() implies {
        let j = link_starts_from(s, 0)[k];
        &&& 0 <= j && j + 4 + links(s)[k].len() <= s.len()
        &&& s.subrange(j, j + 4 + links(s)[k].len()) == seq!['[', '['] + links(s)[k] + seq![']', ']']
    } by {
        let j = link_starts_from(s, 0)[k];
        lemma_run_len_bound(s, j + 2);
        assert(links(s)[k].len() == run_len(s, j + 2));
        assert(s.subrange(j, j + 4 + links(s)[k].len()) =~= seq!['[', '['] + links(s)[k] + seq![']', ']']);
    }
    assert forall|k: int, c: int| 0 <= k < links(s).len() && 0 <= c < links(s)[k].len() implies is_link_char(
        #[trigger] links(s)[k][c],
    ) by {
        let j = link_starts_from(s, 0)[k];
        lemma_run_len_bound(s, j + 2);
        assert(links(s)[k][c] == s[j + 2 + c]);
    }
}

} // verus!
