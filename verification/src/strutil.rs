//! Verified helpers over `&str` and `String`, each specified against the
//! character-sequence view of its inputs.

use vstd::prelude::*;
use vstd::string::StrSliceExecFns;
use vstd::string::StringExecFns;

verus! {

/// Index of the first occurrence of `c` in `s`, or `s.len()` if absent.
pub open spec fn spec_find(s: Seq<char>, c: char) -> int
    decreases s.len(),
{
    if s.len() == 0 {
        0
    } else if s[0] == c {
        0
    } else {
        1 + spec_find(s.skip(1), c)
    }
}

pub proof fn lemma_spec_find(s: Seq<char>, c: char)
    ensures
        0 <= spec_find(s, c) <= s.len(),
        spec_find(s, c) < s.len() ==> s[spec_find(s, c)] == c,
        forall|k: int| 0 <= k < spec_find(s, c) ==> s[k] != c,
    decreases s.len(),
{
    if s.len() == 0 {
    } else if s[0] == c {
    } else {
        lemma_spec_find(s.skip(1), c);
        let i = spec_find(s, c);
        assert forall|k: int| 0 <= k < i implies s[k] != c by {
            if k > 0 {
                assert(s.skip(1)[k - 1] == s[k]);
            }
        }
        if i < s.len() {
            assert(s.skip(1)[i - 1] == s[i]);
        }
    }
}

/// Any index that is a first occurrence (or witnesses absence) is `spec_find`.
pub proof fn lemma_find_unique(s: Seq<char>, c: char, i: int)
    requires
        0 <= i <= s.len(),
        i < s.len() ==> s[i] == c,
        forall|k: int| 0 <= k < i ==> s[k] != c,
    ensures
        spec_find(s, c) == i,
    decreases s.len(),
{
    if s.len() == 0 {
    } else if s[0] == c {
    } else {
        assert(s[0] != c);
        assert(i > 0);
        assert forall|k: int| 0 <= k < i - 1 implies s.skip(1)[k] != c by {
            assert(s.skip(1)[k] == s[k + 1]);
        }
        if i < s.len() {
            assert(s.skip(1)[i - 1] == s[i]);
        }
        lemma_find_unique(s.skip(1), c, i - 1);
    }
}

/// First index `>= from` holding `c`, or the length of `s` if there is none.
pub fn find_char(s: &str, c: char, from: usize) -> (r: usize)
    requires
        from <= s@.len(),
    ensures
        from <= r <= s@.len(),
        r < s@.len() ==> s@[r as int] == c,
        forall|k: int| from <= k < r ==> s@[k] != c,
        r - from == spec_find(s@.skip(from as int), c),
{
    let n = s.unicode_len();
    let mut i = from;
    while i < n
        invariant
            from <= i <= n,
            n == s@.len(),
            forall|k: int| from <= k < i ==> s@[k] != c,
        decreases n - i,
    {
        if s.get_char(i) == c {
            proof {
                assert forall|k: int| 0 <= k < i - from implies s@.skip(from as int)[k] != c by {
                    assert(s@.skip(from as int)[k] == s@[k + from]);
                }
                assert(s@.skip(from as int)[i - from] == s@[i as int]);
                lemma_find_unique(s@.skip(from as int), c, i - from);
            }
            return i;
        }
        i += 1;
    }
    proof {
        assert forall|k: int| 0 <= k < n - from implies s@.skip(from as int)[k] != c by {
            assert(s@.skip(from as int)[k] == s@[k + from]);
        }
        lemma_find_unique(s@.skip(from as int), c, n - from);
    }
    n
}

/// Whether `s` holds `c` anywhere.
pub fn contains_char(s: &str, c: char) -> (r: bool)
    ensures
        r == s@.contains(c),
{
    let n = s.unicode_len();
    let i = find_char(s, c, 0);
    if i < n {
        proof {
            assert(s@[i as int] == c);
        }
        true
    } else {
        proof {
            assert forall|k: int| 0 <= k < s@.len() implies s@[k] != c by {}
            assert(!s@.contains(c));
        }
        false
    }
}

/// Character-for-character equality of two string slices.
pub fn str_eq(a: &str, b: &str) -> (r: bool)
    ensures
        r == (a@ == b@),
{
    let na = a.unicode_len();
    let nb = b.unicode_len();
    if na != nb {
        return false;
    }
    let mut i: usize = 0;
    while i < na
        invariant
            0 <= i <= na,
            na == a@.len(),
            na == b@.len(),
            forall|k: int| 0 <= k < i ==> a@[k] == b@[k],
        decreases na - i,
    {
        if a.get_char(i) != b.get_char(i) {
            return false;
        }
        i += 1;
    }
    proof {
        assert(a@ =~= b@);
    }
    true
}

/// `p` occurs in `s` as the substring beginning at `i`.
pub open spec fn spec_starts_at(s: Seq<char>, p: Seq<char>, i: int) -> bool {
    0 <= i && i + p.len() <= s.len() && s.subrange(i, i + p.len() as int) == p
}

pub fn starts_with_at(s: &str, p: &str, i: usize) -> (r: bool)
    requires
        i <= s@.len(),
    ensures
        r == spec_starts_at(s@, p@, i as int),
{
    let n = s.unicode_len();
    let m = p.unicode_len();
    if m > n - i {
        proof {
            assert(!spec_starts_at(s@, p@, i as int));
        }
        return false;
    }
    let mut k: usize = 0;
    while k < m
        invariant
            0 <= k <= m,
            i + m <= n,
            n == s@.len(),
            m == p@.len(),
            forall|j: int| 0 <= j < k ==> s@[i + j] == p@[j],
        decreases m - k,
    {
        if s.get_char(i + k) != p.get_char(k) {
            proof {
                assert(s@.subrange(i as int, i + p@.len() as int)[k as int] == s@[i + k]);
            }
            return false;
        }
        k += 1;
    }
    proof {
        assert(s@.subrange(i as int, i + p@.len() as int) =~= p@);
    }
    true
}

/// Whether `s` begins with `p`.
pub fn starts_with(s: &str, p: &str) -> (r: bool)
    ensures
        r == spec_starts_at(s@, p@, 0),
{
    starts_with_at(s, p, 0)
}

} // verus!

verus! {

/// Split at the first space: the part before it, and if a space exists, the
/// rest after it.
pub open spec fn spec_split2(s: Seq<char>) -> (Seq<char>, Option<Seq<char>>) {
    let i = spec_find(s, ' ');
    if i == s.len() {
        (s, None)
    } else {
        (s.take(i), Some(s.skip(i + 1)))
    }
}

pub fn split_once_space(s: &str) -> (r: (String, Option<String>))
    ensures
        r.0@ == spec_split2(s@).0,
        r.1 is Some <==> spec_split2(s@).1 is Some,
        r.1 matches Some(rest) ==> spec_split2(s@).1 matches Some(rest2) && rest@ == rest2,
{
    let n = s.unicode_len();
    let i = find_char(s, ' ', 0);
    proof {
        assert(s@.skip(0) =~= s@);
    }
    if i == n {
        proof {
            assert(s@.subrange(0, n as int) =~= s@);
        }
        (String::from_str(s.substring_char(0, n)), None)
    } else {
        (
            String::from_str(s.substring_char(0, i)),
            Some(String::from_str(s.substring_char(i + 1, n))),
        )
    }
}

/// The pieces of `s` under a three-way split at the first two spaces: one,
/// two or three parts, the last keeping any further spaces.
pub open spec fn spec_split3(s: Seq<char>) -> Seq<Seq<char>> {
    let (a, r) = spec_split2(s);
    match r {
        None => seq![a],
        Some(rest) => {
            let (b, r2) = spec_split2(rest);
            match r2 {
                None => seq![a, b],
                Some(rest2) => seq![a, b, rest2],
            }
        },
    }
}

pub fn split3_space(s: &str) -> (r: Vec<String>)
    ensures
        r.deep_view() == spec_split3(s@),
        1 <= r.len() <= 3,
{
    let (a, rest) = split_once_space(s);
    let mut out: Vec<String> = Vec::new();
    match rest {
        None => {
            out.push(a);
            proof {
                assert(out.deep_view() =~= spec_split3(s@));
            }
        },
        Some(rest) => {
            let (b, rest2) = split_once_space(rest.as_str());
            out.push(a);
            out.push(b);
            match rest2 {
                None => {
                    proof {
                        assert(out.deep_view() =~= spec_split3(s@));
                    }
                },
                Some(rest2) => {
                    out.push(rest2);
                    proof {
                        assert(out.deep_view() =~= spec_split3(s@));
                    }
                },
            }
        },
    }
    out
}

/// The whitespace characters that line trimming removes.
pub open spec fn is_space(c: char) -> bool {
    c == ' ' || c == '\t' || c == '\r' || c == '\n' || c == '\x0b' || c == '\x0c'
}

pub open spec fn spec_trim_start(s: Seq<char>) -> Seq<char>
    decreases s.len(),
{
    if s.len() > 0 && is_space(s[0]) {
        spec_trim_start(s.skip(1))
    } else {
        s
    }
}

pub open spec fn spec_trim_end(s: Seq<char>) -> Seq<char>
    decreases s.len(),
{
    if s.len() > 0 && is_space(s.last()) {
        spec_trim_end(s.drop_last())
    } else {
        s
    }
}

/// `s` with leading and trailing whitespace removed.
pub open spec fn spec_trim(s: Seq<char>) -> Seq<char> {
    spec_trim_end(spec_trim_start(s))
}

proof fn lemma_trim_start_skip(s: Seq<char>, i: int)
    requires
        0 <= i <= s.len(),
        forall|k: int| 0 <= k < i ==> is_space(s[k]),
        i < s.len() ==> !is_space(s[i]),
    ensures
        spec_trim_start(s) == s.skip(i),
    decreases s.len(),
{
    if i == 0 {
        assert(s.skip(0) =~= s);
    } else {
        assert(is_space(s[0]));
        assert forall|k: int| 0 <= k < i - 1 implies is_space(s.skip(1)[k]) by {
            assert(s.skip(1)[k] == s[k + 1]);
        }
        if i < s.len() {
            assert(s.skip(1)[i - 1] == s[i]);
        }
        lemma_trim_start_skip(s.skip(1), i - 1);
        assert(s.skip(1).skip(i - 1) =~= s.skip(i));
    }
}

proof fn lemma_trim_end_take(s: Seq<char>, j: int)
    requires
        0 <= j <= s.len(),
        forall|k: int| j <= k < s.len() ==> is_space(s[k]),
        j > 0 ==> !is_space(s[j - 1]),
    ensures
        spec_trim_end(s) == s.take(j),
    decreases s.len(),
{
    if j == s.len() {
        if s.len() > 0 && is_space(s.last()) {
            assert(s.drop_last() =~= s.take(s.len() - 1));
            lemma_trim_end_take(s.drop_last(), j - 1);
            assert(s.take(s.len() - 1).take(j - 1) =~= s.take(j - 1));
            assert(false);
        }
        assert(s.take(j) =~= s);
    } else {
        assert(is_space(s.last()));
        assert(s.drop_last() =~= s.take(s.len() - 1));
        lemma_trim_end_take(s.take(s.len() - 1), j);
        assert(s.take(s.len() - 1).take(j) =~= s.take(j));
    }
}

fn is_space_exec(c: char) -> (r: bool)
    ensures
        r == is_space(c),
{
    c == ' ' || c == '\t' || c == '\r' || c == '\n' || c == '\x0b' || c == '\x0c'
}

/// `s` with leading and trailing whitespace removed.
pub fn trim(s: &str) -> (r: String)
    ensures
        r@ == spec_trim(s@),
{
    let n = s.unicode_len();
    let mut i: usize = 0;
    while i < n && is_space_exec(s.get_char(i))
        invariant
            0 <= i <= n,
            n == s@.len(),
            forall|k: int| 0 <= k < i ==> is_space(s@[k]),
        decreases n - i,
    {
        i += 1;
    }
    proof {
        lemma_trim_start_skip(s@, i as int);
    }
    let mut j: usize = n;
    while j > i && is_space_exec(s.get_char(j - 1))
        invariant
            i <= j <= n,
            n == s@.len(),
            i < s@.len() ==> !is_space(s@[i as int]),
            forall|k: int| j <= k < n ==> is_space(s@[k]),
        decreases j,
    {
        j -= 1;
    }
    proof {
        let t = s@.skip(i as int);
        assert forall|k: int| j - i <= k < t.len() implies is_space(t[k]) by {
            assert(t[k] == s@[k + i]);
        }
        if j - i > 0 {
            assert(t[j - i - 1] == s@[j - 1]);
        }
        lemma_trim_end_take(t, j - i);
        assert(t.take(j - i) =~= s@.subrange(i as int, j as int));
    }
    String::from_str(s.substring_char(i, j))
}

/// `s` with every trailing `c` removed.
pub open spec fn spec_trim_char_end(s: Seq<char>, c: char) -> Seq<char>
    decreases s.len(),
{
    if s.len() > 0 && s.last() == c {
        spec_trim_char_end(s.drop_last(), c)
    } else {
        s
    }
}

proof fn lemma_trim_char_end_take(s: Seq<char>, c: char, j: int)
    requires
        0 <= j <= s.len(),
        forall|k: int| j <= k < s.len() ==> s[k] == c,
        j > 0 ==> s[j - 1] != c,
    ensures
        spec_trim_char_end(s, c) == s.take(j),
    decreases s.len(),
{
    if j == s.len() {
        if s.len() > 0 && s.last() == c {
            assert(s.drop_last() =~= s.take(s.len() - 1));
            lemma_trim_char_end_take(s.drop_last(), c, j - 1);
            assert(false);
        }
        assert(s.take(j) =~= s);
    } else {
        assert(s.last() == c);
        assert(s.drop_last() =~= s.take(s.len() - 1));
        lemma_trim_char_end_take(s.take(s.len() - 1), c, j);
        assert(s.take(s.len() - 1).take(j) =~= s.take(j));
    }
}

/// `s` with every leading and every trailing `c` removed.
pub open spec fn spec_trim_char_both(s: Seq<char>, c: char) -> Seq<char>
    decreases s.len(),
{
    if s.len() > 0 && s[0] == c {
        spec_trim_char_both(s.skip(1), c)
    } else {
        spec_trim_char_end(s, c)
    }
}

proof fn lemma_trim_char_both_skip(s: Seq<char>, c: char, i: int)
    requires
        0 <= i <= s.len(),
        forall|k: int| 0 <= k < i ==> s[k] == c,
        i < s.len() ==> s[i] != c,
    ensures
        spec_trim_char_both(s, c) == spec_trim_char_end(s.skip(i), c),
    decreases s.len(),
{
    if i == 0 {
        assert(s.skip(0) =~= s);
        if s.len() > 0 && s[0] == c {
            assert(false);
        }
    } else {
        assert(s[0] == c);
        assert forall|k: int| 0 <= k < i - 1 implies s.skip(1)[k] == c by {
            assert(s.skip(1)[k] == s[k + 1]);
        }
        if i < s.len() {
            assert(s.skip(1)[i - 1] == s[i]);
        }
        lemma_trim_char_both_skip(s.skip(1), c, i - 1);
        assert(s.skip(1).skip(i - 1) =~= s.skip(i));
    }
}

pub fn trim_char_end(s: &str, c: char) -> (r: String)
    ensures
        r@ == spec_trim_char_end(s@, c),
{
    let n = s.unicode_len();
    let mut j: usize = n;
    while j > 0 && s.get_char(j - 1) == c
        invariant
            0 <= j <= n,
            n == s@.len(),
            forall|k: int| j <= k < n ==> s@[k] == c,
        decreases j,
    {
        j -= 1;
    }
    proof {
        lemma_trim_char_end_take(s@, c, j as int);
        assert(s@.take(j as int) =~= s@.subrange(0, j as int));
    }
    String::from_str(s.substring_char(0, j))
}

pub fn trim_char_both(s: &str, c: char) -> (r: String)
    ensures
        r@ == spec_trim_char_both(s@, c),
{
    let n = s.unicode_len();
    let mut i: usize = 0;
    while i < n && s.get_char(i) == c
        invariant
            0 <= i <= n,
            n == s@.len(),
            forall|k: int| 0 <= k < i ==> s@[k] == c,
        decreases n - i,
    {
        i += 1;
    }
    proof {
        lemma_trim_char_both_skip(s@, c, i as int);
    }
    let mut j: usize = n;
    while j > i && s.get_char(j - 1) == c
        invariant
            i <= j <= n,
            n == s@.len(),
            forall|k: int| j <= k < n ==> s@[k] == c,
        decreases j,
    {
        j -= 1;
    }
    proof {
        let t = s@.skip(i as int);
        assert forall|k: int| j - i <= k < t.len() implies t[k] == c by {
            assert(t[k] == s@[k + i]);
        }
        if j - i > 0 {
            assert(t[j - i - 1] == s@[j - 1]);
        }
        lemma_trim_char_end_take(t, c, j - i);
        assert(t.take(j - i) =~= s@.subrange(i as int, j as int));
    }
    String::from_str(s.substring_char(i, j))
}

} // verus!

verus! {

/// The pieces of `s` between occurrences of `c`: always at least one piece,
/// and one more piece per occurrence.
pub open spec fn spec_split_all(s: Seq<char>, c: char) -> Seq<Seq<char>>
    decreases s.len(),
{
    let i = spec_find(s, c);
    if 0 <= i && i < s.len() {
        seq![s.take(i)] + spec_split_all(s.skip(i + 1), c)
    } else {
        seq![s]
    }
}

pub proof fn lemma_split_all_len(s: Seq<char>, c: char)
    ensures
        spec_split_all(s, c).len() >= 1,
    decreases s.len(),
{
    lemma_spec_find(s, c);
    let i = spec_find(s, c);
    if i < s.len() {
        lemma_split_all_len(s.skip(i + 1), c);
    }
}

pub fn split_all(s: &str, c: char) -> (r: Vec<String>)
    ensures
        r.deep_view() == spec_split_all(s@, c),
        r.len() >= 1,
{
    let n = s.unicode_len();
    let mut out: Vec<String> = Vec::new();
    let mut start: usize = 0;
    proof {
        assert(s@.skip(0) =~= s@);
        lemma_spec_find(s@, c);
    }
    loop
        invariant
            0 <= start <= n,
            n == s@.len(),
            spec_split_all(s@, c) =~= out.deep_view() + spec_split_all(s@.skip(start as int), c),
            start > 0 ==> out.len() >= 1,
            start == 0 ==> out.len() == 0,
        decreases n - start,
    {
        let i = find_char(s, c, start);
        let piece = String::from_str(s.substring_char(start, i));
        proof {
            assert(s@.subrange(start as int, i as int) =~= s@.skip(start as int).take(
                i - start as int,
            ));
        }
        let ghost prev = out.deep_view();
        out.push(piece);
        proof {
            assert(out.deep_view() =~= prev.push(s@.skip(start as int).take(i - start)));
        }
        if i == n {
            proof {
                assert(s@.skip(start as int).take(i - start) =~= s@.skip(start as int));
                assert(spec_split_all(s@.skip(start as int), c) == seq![s@.skip(start as int)]);
                assert(spec_split_all(s@, c) =~= out.deep_view());
            }
            return out;
        } else {
            proof {
                assert(s@.skip(start as int).skip(i - start + 1) =~= s@.skip(i + 1));
                assert(spec_split_all(s@.skip(start as int), c) == seq![
                    s@.skip(start as int).take(i - start),
                ] + spec_split_all(s@.skip(i + 1), c));
                assert(out.deep_view() + spec_split_all(s@.skip(i + 1 as int), c)
                    =~= (prev + spec_split_all(s@.skip(start as int), c)));
            }
            start = i + 1;
        }
    }
}

/// One trailing carriage return removed, as the line splitter does.
pub open spec fn spec_strip_cr(p: Seq<char>) -> Seq<char> {
    if p.len() > 0 && p.last() == '\r' {
        p.drop_last()
    } else {
        p
    }
}

/// The lines of `s`: pieces between newlines, without a final empty piece
/// when `s` ends in a newline, each piece stripped of one trailing `'\r'`.
pub open spec fn spec_lines(s: Seq<char>) -> Seq<Seq<char>> {
    if s.len() == 0 {
        Seq::empty()
    } else {
        let ps = if s.last() == '\n' {
            spec_split_all(s, '\n').drop_last()
        } else {
            spec_split_all(s, '\n')
        };
        ps.map_values(|p: Seq<char>| spec_strip_cr(p))
    }
}

pub fn lines(s: &str) -> (r: Vec<String>)
    ensures
        r.deep_view() == spec_lines(s@),
{
    let n = s.unicode_len();
    if n == 0 {
        let out: Vec<String> = Vec::new();
        proof {
            assert(out.deep_view() =~= spec_lines(s@));
        }
        return out;
    }
    let mut pieces = split_all(s, '\n');
    if s.get_char(n - 1) == '\n' {
        proof {
            lemma_split_last_nl(s@);
        }
        pieces.pop();
    }
    let ghost ps = pieces.deep_view();
    let mut out: Vec<String> = Vec::new();
    let mut k: usize = 0;
    while k < pieces.len()
        invariant
            0 <= k <= pieces.len(),
            ps == pieces.deep_view(),
            out.deep_view() =~= ps.take(k as int).map_values(|p: Seq<char>| spec_strip_cr(p)),
        decreases pieces.len() - k,
    {
        let p = &pieces[k];
        let m = p.as_str().unicode_len();
        let stripped: String = if m > 0 && p.as_str().get_char(m - 1) == '\r' {
            proof {
                assert(p@.subrange(0, m - 1 as int) =~= p@.drop_last());
            }
            String::from_str(p.as_str().substring_char(0, m - 1))
        } else {
            p.clone()
        };
        assert(stripped@ == spec_strip_cr(ps[k as int]));
        let ghost prev = out.deep_view();
        out.push(stripped);
        proof {
            assert(out.deep_view() =~= prev.push(spec_strip_cr(ps[k as int])));
            assert(out.deep_view() =~= ps.take(k + 1).map_values(
                |p: Seq<char>| spec_strip_cr(p),
            ));
        }
        k += 1;
    }
    proof {
        assert(ps.take(pieces.len() as int) =~= ps);
        assert(out.deep_view() =~= spec_lines(s@));
    }
    out
}

/// When `s` ends in a newline, the last split piece is empty.
proof fn lemma_split_last_nl(s: Seq<char>)
    requires
        s.len() > 0,
        s.last() == '\n',
    ensures
        spec_split_all(s, '\n').last() =~= Seq::<char>::empty(),
        spec_split_all(s, '\n').len() >= 2,
    decreases s.len(),
{
    lemma_spec_find(s, '\n');
    let i = spec_find(s, '\n');
    assert(i < s.len());
    let rest = s.skip(i + 1);
    if rest.len() == 0 {
        assert(spec_split_all(rest, '\n') == seq![rest]);
    } else {
        assert(rest.last() == s.last());
        lemma_split_last_nl(rest);
    }
}

/// The parts joined with `sep` between consecutive parts.
pub open spec fn spec_join(parts: Seq<Seq<char>>, sep: Seq<char>) -> Seq<char>
    decreases parts.len(),
{
    if parts.len() == 0 {
        Seq::empty()
    } else if parts.len() == 1 {
        parts[0]
    } else {
        parts[0] + sep + spec_join(parts.skip(1), sep)
    }
}

pub proof fn lemma_join_push(parts: Seq<Seq<char>>, sep: Seq<char>, x: Seq<char>)
    requires
        parts.len() >= 1,
    ensures
        spec_join(parts.push(x), sep) == spec_join(parts, sep) + sep + x,
    decreases parts.len(),
{
    if parts.len() == 1 {
        assert(parts.push(x)[0] == parts[0]);
        assert(parts.push(x).skip(1) =~= seq![x]);
        assert(spec_join(seq![x], sep) == x);
        assert(spec_join(parts.push(x), sep) == parts[0] + sep + x);
    } else {
        assert(parts.push(x).skip(1) =~= parts.skip(1).push(x));
        lemma_join_push(parts.skip(1), sep, x);
        assert(spec_join(parts.push(x), sep) == parts[0] + sep + (spec_join(parts.skip(1), sep)
            + sep + x));
        assert(parts[0] + sep + (spec_join(parts.skip(1), sep) + sep + x) =~= (parts[0] + sep
            + spec_join(parts.skip(1), sep)) + sep + x);
    }
}

/// Join `v[lo..hi]` with `sep`.
pub fn join_range(v: &Vec<String>, lo: usize, hi: usize, sep: &str) -> (r: String)
    requires
        lo <= hi <= v.len(),
    ensures
        r@ == spec_join(v.deep_view().subrange(lo as int, hi as int), sep@),
{
    let mut out = String::new();
    let mut k: usize = lo;
    if k == hi {
        proof {
            assert(v.deep_view().subrange(lo as int, hi as int).len() == 0);
        }
        return out;
    }
    out.append(v[lo].as_str());
    proof {
        assert(v.deep_view().subrange(lo as int, lo + 1) =~= seq![v.deep_view()[lo as int]]);
        assert(out@ == spec_join(v.deep_view().subrange(lo as int, lo + 1), sep@));
    }
    k = lo + 1;
    while k < hi
        invariant
            lo < k <= hi <= v.len(),
            out@ == spec_join(v.deep_view().subrange(lo as int, k as int), sep@),
        decreases hi - k,
    {
        out.append(sep);
        out.append(v[k].as_str());
        proof {
            let pre = v.deep_view().subrange(lo as int, k as int);
            assert(v.deep_view().subrange(lo as int, k + 1) =~= pre.push(
                v.deep_view()[k as int],
            ));
            lemma_join_push(pre, sep@, v.deep_view()[k as int]);
        }
        k += 1;
    }
    out
}

/// Join all of `v` with `sep`.
pub fn join_all(v: &Vec<String>, sep: &str) -> (r: String)
    ensures
        r@ == spec_join(v.deep_view(), sep@),
{
    let r = join_range(v, 0, v.len(), sep);
    proof {
        assert(v.deep_view().subrange(0, v.len() as int) =~= v.deep_view());
    }
    r
}

} // verus!

verus! {

/// `s` with every non-overlapping occurrence of `from`, scanned left to
/// right, replaced by `to`.  An empty `from` matches before every character
/// and at the end, as the standard library's substring replacement does.
pub open spec fn spec_replace(s: Seq<char>, from: Seq<char>, to: Seq<char>) -> Seq<char>
    decreases s.len(),
{
    if from.len() == 0 {
        if s.len() == 0 {
            to
        } else {
            to + seq![s[0]] + spec_replace(s.skip(1), from, to)
        }
    } else if s.len() >= from.len() && s.take(from.len() as int) == from {
        to + spec_replace(s.skip(from.len() as int), from, to)
    } else if s.len() == 0 {
        s
    } else {
        seq![s[0]] + spec_replace(s.skip(1), from, to)
    }
}

/// A string holding no occurrence of `from` is left unchanged.
pub proof fn lemma_replace_no_occurrence(s: Seq<char>, from: Seq<char>, to: Seq<char>)
    requires
        from.len() > 0,
        forall|i: int| !(#[trigger] spec_starts_at(s, from, i)),
    ensures
        spec_replace(s, from, to) == s,
    decreases s.len(),
{
    if s.len() >= from.len() && s.take(from.len() as int) == from {
        assert(s.subrange(0, 0 + from.len() as int) =~= s.take(from.len() as int));
        assert(spec_starts_at(s, from, 0));
        assert(false);
    }
    if s.len() == 0 {
    } else {
        assert forall|i: int| !(#[trigger] spec_starts_at(s.skip(1), from, i)) by {
            if 0 <= i && i + from.len() <= s.skip(1).len() {
                assert(s.skip(1).subrange(i, i + from.len() as int) =~= s.subrange(
                    i + 1,
                    i + 1 + from.len() as int,
                ));
                assert(!spec_starts_at(s, from, i + 1));
            }
        }
        lemma_replace_no_occurrence(s.skip(1), from, to);
        assert(seq![s[0]] + s.skip(1) =~= s);
    }
}

pub fn replace_str(s: &str, from: &str, to: &str) -> (r: String)
    ensures
        r@ == spec_replace(s@, from@, to@),
{
    let n = s.unicode_len();
    let flen = from.unicode_len();
    let mut out = String::new();
    let mut i: usize = 0;
    proof {
        assert(s@.skip(0) =~= s@);
        assert(out@ + spec_replace(s@, from@, to@) =~= spec_replace(s@, from@, to@));
    }
    if flen == 0 {
        while i < n
            invariant
                0 <= i <= n,
                n == s@.len(),
                from@.len() == 0,
                spec_replace(s@, from@, to@) =~= out@ + spec_replace(
                    s@.skip(i as int),
                    from@,
                    to@,
                ),
            decreases n - i,
        {
            out.append(to);
            out.append(s.substring_char(i, i + 1));
            proof {
                let rest = s@.skip(i as int);
                assert(rest[0] == s@[i as int]);
                assert(s@.subrange(i as int, i + 1) =~= seq![s@[i as int]]);
                assert(rest.skip(1) =~= s@.skip(i + 1));
                assert(spec_replace(rest, from@, to@) == to@ + seq![rest[0]] + spec_replace(
                    s@.skip(i + 1),
                    from@,
                    to@,
                ));
            }
            i += 1;
        }
        out.append(to);
        proof {
            assert(spec_replace(s@.skip(n as int), from@, to@) == to@);
        }
        return out;
    }
    while i < n
        invariant
            0 <= i <= n,
            n == s@.len(),
            flen == from@.len(),
            flen > 0,
            spec_replace(s@, from@, to@) =~= out@ + spec_replace(s@.skip(i as int), from@, to@),
        decreases n - i,
    {
        if starts_with_at(s, from, i) {
            out.append(to);
            proof {
                let rest = s@.skip(i as int);
                assert(rest.take(flen as int) =~= s@.subrange(i as int, i + flen));
                assert(rest.skip(flen as int) =~= s@.skip(i + flen));
                assert(spec_replace(rest, from@, to@) == to@ + spec_replace(
                    s@.skip(i + flen),
                    from@,
                    to@,
                ));
            }
            i += flen;
        } else {
            out.append(s.substring_char(i, i + 1));
            proof {
                let rest = s@.skip(i as int);
                assert(rest[0] == s@[i as int]);
                assert(s@.subrange(i as int, i + 1) =~= seq![s@[i as int]]);
                assert(rest.skip(1) =~= s@.skip(i + 1));
                if rest.len() >= flen && rest.take(flen as int) == from@ {
                    assert(rest.take(flen as int) =~= s@.subrange(i as int, i + flen));
                    assert(false);
                }
                assert(spec_replace(rest, from@, to@) == seq![rest[0]] + spec_replace(
                    s@.skip(i + 1),
                    from@,
                    to@,
                ));
            }
            i += 1;
        }
    }
    proof {
        assert(s@.skip(n as int) =~= Seq::<char>::empty());
        assert(spec_replace(s@.skip(n as int), from@, to@) =~= Seq::<char>::empty());
    }
    out
}

/// The repackaging table applied to `s`: each `(from, to)` pair, in table
/// order, as one whole-string literal substring replacement.
pub open spec fn spec_remap(s: Seq<char>, table: Seq<(Seq<char>, Seq<char>)>) -> Seq<char>
    decreases table.len(),
{
    if table.len() == 0 {
        s
    } else {
        spec_remap(spec_replace(s, table[0].0, table[0].1), table.skip(1))
    }
}

pub fn apply_remap(s: &str, table: &Vec<(String, String)>) -> (r: String)
    ensures
        r@ == spec_remap(s@, table.deep_view()),
{
    let ghost t = table.deep_view();
    let mut cur = String::from_str(s);
    let mut k: usize = 0;
    proof {
        assert(t.skip(0) =~= t);
    }
    while k < table.len()
        invariant
            0 <= k <= table.len(),
            t == table.deep_view(),
            t.len() == table.len(),
            spec_remap(s@, t) == spec_remap(cur@, t.skip(k as int)),
        decreases table.len() - k,
    {
        let next = replace_str(cur.as_str(), table[k].0.as_str(), table[k].1.as_str());
        proof {
            assert(t.skip(k as int)[0] == t[k as int]);
            assert(t[k as int].0 == table[k as int].0@);
            assert(t.skip(k as int).skip(1) =~= t.skip(k + 1));
            assert(spec_remap(cur@, t.skip(k as int)) == spec_remap(next@, t.skip(k + 1)));
        }
        cur = next;
        k += 1;
    }
    proof {
        assert(t.skip(t.len() as int) =~= Seq::<(Seq<char>, Seq<char>)>::empty());
    }
    cur
}

/// All parts concatenated in order.
pub open spec fn spec_concat(parts: Seq<Seq<char>>) -> Seq<char>
    decreases parts.len(),
{
    if parts.len() == 0 {
        Seq::empty()
    } else {
        parts[0] + spec_concat(parts.skip(1))
    }
}

} // verus!

verus! {

/// A string holding no occurrence of any `from` of the table is a fixed
/// point of the whole repackaging pass.  Repackaging is therefore idempotent
/// exactly on those inputs whose first pass leaves no `from` value behind —
/// which substitution in table order does not promise in general, since a
/// replacement may recreate a `from` across a boundary.
pub proof fn lemma_remap_fixed_point(s: Seq<char>, table: Seq<(Seq<char>, Seq<char>)>)
    requires
        forall|k: int| 0 <= k < table.len() ==> (#[trigger] table[k].0).len() > 0,
        forall|k: int, i: int|
            0 <= k < table.len() ==> !(#[trigger] spec_starts_at(s, table[k].0, i)),
    ensures
        spec_remap(s, table) == s,
    decreases table.len(),
{
    if table.len() == 0 {
    } else {
        assert(table[0].0.len() > 0);
        assert forall|i: int| !(#[trigger] spec_starts_at(s, table[0].0, i)) by {
            assert(!spec_starts_at(s, table[0].0, i));
        }
        lemma_replace_no_occurrence(s, table[0].0, table[0].1);
        assert forall|k: int, i: int|
            0 <= k < table.skip(1).len() implies !(#[trigger] spec_starts_at(
            s,
            table.skip(1)[k].0,
            i,
        )) by {
            assert(table.skip(1)[k] == table[k + 1]);
            assert(!spec_starts_at(s, table[k + 1].0, i));
        }
        assert forall|k: int|
            0 <= k < table.skip(1).len() implies (#[trigger] table.skip(1)[k].0).len() > 0 by {
            assert(table.skip(1)[k] == table[k + 1]);
        }
        lemma_remap_fixed_point(s, table.skip(1));
    }
}

/// Substitutions are applied in table order: running a split table is
/// running its front part, then its back part on the outcome.
pub proof fn lemma_remap_in_order(s: Seq<char>, t1: Seq<(Seq<char>, Seq<char>)>, t2: Seq<(Seq<char>, Seq<char>)>)
    ensures
        spec_remap(s, t1 + t2) == spec_remap(spec_remap(s, t1), t2),
    decreases t1.len(),
{
    if t1.len() == 0 {
        assert(t1 + t2 =~= t2);
    } else {
        let whole = t1 + t2;
        assert(whole[0] == t1[0]);
        assert(whole.skip(1) =~= t1.skip(1) + t2);
        lemma_remap_in_order(spec_replace(s, t1[0].0, t1[0].1), t1.skip(1), t2);
    }
}

} // verus!
