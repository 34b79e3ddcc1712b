//! JVM type-descriptor decoding: splitting a parameter-list descriptor into
//! tokens, and resolving one token to a display name against the name index.

use vstd::prelude::*;
use vstd::string::StrSliceExecFns;
use vstd::string::StringExecFns;

use crate::Error;
use crate::strutil::contains_char;
use crate::strutil::find_char;
use crate::strutil::spec_concat;
use crate::strutil::spec_find;
use crate::strutil::spec_join;
use crate::strutil::spec_remap;
use crate::strutil::spec_replace;
use crate::strutil::spec_split_all;
use crate::strutil::spec_starts_at;

verus! {

/// The primitive descriptor characters, `V` for "no value" among them.
pub open spec fn is_prim(c: char) -> bool {
    c == 'B' || c == 'C' || c == 'D' || c == 'F' || c == 'I' || c == 'J' || c == 'S' || c == 'Z'
        || c == 'V'
}

fn is_prim_exec(c: char) -> (r: bool)
    ensures
        r == is_prim(c),
{
    c == 'B' || c == 'C' || c == 'D' || c == 'F' || c == 'I' || c == 'J' || c == 'S' || c == 'Z'
        || c == 'V'
}

/// The descriptor string cut into descriptor tokens: one character per
/// primitive, `L…;` for an object (a greedy scan to the next `;`), and an
/// array token carrying its `[` prefixes.  `None` when a character or
/// sequence falls outside the grammar.
pub open spec fn spec_split_desc(s: Seq<char>) -> Option<Seq<Seq<char>>>
    decreases s.len(),
{
    if s.len() == 0 {
        Some(Seq::empty())
    } else if is_prim(s[0]) {
        match spec_split_desc(s.skip(1)) {
            None => None,
            Some(rest) => Some(seq![seq![s[0]]] + rest),
        }
    } else if s[0] == 'L' {
        let i = spec_find(s, ';');
        if 0 <= i && i < s.len() {
            match spec_split_desc(s.skip(i + 1)) {
                None => None,
                Some(rest) => Some(seq![s.take(i + 1)] + rest),
            }
        } else {
            None
        }
    } else if s[0] == '[' {
        match spec_split_desc(s.skip(1)) {
            None => None,
            Some(rest) => if rest.len() == 0 {
                None
            } else {
                Some(seq![seq!['['] + rest[0]] + rest.skip(1))
            },
        }
    } else {
        None
    }
}

proof fn lemma_concat_cons(x: Seq<char>, rest: Seq<Seq<char>>)
    ensures
        spec_concat(seq![x] + rest) == x + spec_concat(rest),
{
    let whole = seq![x] + rest;
    assert(whole[0] == x);
    assert(whole.skip(1) =~= rest);
}

/// Splitting loses nothing: the tokens of a valid descriptor string
/// concatenate back to the string itself.
pub proof fn lemma_split_desc_concat(s: Seq<char>)
    requires
        spec_split_desc(s) is Some,
    ensures
        spec_concat(spec_split_desc(s)->0) == s,
    decreases s.len(),
{
    let ts = spec_split_desc(s)->0;
    if s.len() == 0 {
        assert(ts =~= Seq::<Seq<char>>::empty());
        assert(spec_concat(ts) =~= s);
    } else if is_prim(s[0]) {
        let rest = spec_split_desc(s.skip(1))->0;
        lemma_split_desc_concat(s.skip(1));
        lemma_concat_cons(seq![s[0]], rest);
        assert(seq![s[0]] + s.skip(1) =~= s);
    } else if s[0] == 'L' {
        let i = spec_find(s, ';');
        assert(0 <= i && i < s.len());
        let rest = spec_split_desc(s.skip(i + 1))->0;
        lemma_split_desc_concat(s.skip(i + 1));
        lemma_concat_cons(s.take(i + 1), rest);
        assert(s.take(i + 1) + s.skip(i + 1) =~= s);
    } else {
        assert(s[0] == '[');
        let rest = spec_split_desc(s.skip(1))->0;
        assert(rest.len() > 0);
        lemma_split_desc_concat(s.skip(1));
        lemma_concat_cons(seq!['['] + rest[0], rest.skip(1));
        assert(seq![rest[0]] + rest.skip(1) =~= rest);
        lemma_concat_cons(rest[0], rest.skip(1));
        assert((seq!['['] + rest[0]) + spec_concat(rest.skip(1)) =~= seq!['['] + (rest[0]
            + spec_concat(rest.skip(1))));
        assert(seq!['['] + spec_concat(rest) =~= s);
    }
}

/// Stepping over a run of `m` leading `[` characters relates the split of
/// `u` to the split of what follows the run.
proof fn lemma_split_desc_brackets(u: Seq<char>, m: int)
    requires
        0 <= m <= u.len(),
        forall|k: int| 0 <= k < m ==> u[k] == '[',
    ensures
        spec_split_desc(u.skip(m)) is None ==> spec_split_desc(u) is None,
        (spec_split_desc(u.skip(m)) matches Some(rest) && rest.len() == 0 && m > 0) ==> spec_split_desc(
            u,
        ) is None,
        spec_split_desc(u.skip(m)) matches Some(rest) ==> (rest.len() > 0 ==> spec_split_desc(u)
            == Some(seq![u.take(m) + rest[0]] + rest.skip(1))),
        m == 0 ==> spec_split_desc(u) == spec_split_desc(u.skip(m)),
    decreases m,
{
    if m == 0 {
        assert(u.skip(0) =~= u);
        if spec_split_desc(u) is Some && spec_split_desc(u)->0.len() > 0 {
            let rest = spec_split_desc(u)->0;
            assert(u.take(0) + rest[0] =~= rest[0]);
            assert(seq![u.take(0) + rest[0]] + rest.skip(1) =~= rest);
        }
    } else {
        assert(u[0] == '[');
        assert(!is_prim('['));
        let v = u.skip(1);
        assert forall|k: int| 0 <= k < m - 1 implies v[k] == '[' by {
            assert(v[k] == u[k + 1]);
        }
        assert(v.skip(m - 1) =~= u.skip(m));
        lemma_split_desc_brackets(v, m - 1);
        if spec_split_desc(u.skip(m)) is Some && spec_split_desc(u.skip(m))->0.len() > 0 {
            let rest = spec_split_desc(u.skip(m))->0;
            let inner = spec_split_desc(v)->0;
            if m == 1 {
                assert(inner == rest);
                assert(u.take(1) =~= seq!['[']);
            } else {
                assert(spec_split_desc(v) == Some(seq![v.take(m - 1) + rest[0]] + rest.skip(1)));
                assert(inner[0] == v.take(m - 1) + rest[0]);
                assert(inner.skip(1) =~= rest.skip(1));
            }
            assert(inner.len() > 0);
            assert(seq!['['] + inner[0] =~= u.take(m) + rest[0]);
            assert(seq![seq!['['] + inner[0]] + inner.skip(1) =~= seq![u.take(m) + rest[0]]
                + rest.skip(1));
        }
    }
}

/// Cut a parameter-list descriptor (no surrounding parentheses) into tokens.
/// Never consults the name index.
pub fn split_descriptor(s: &str) -> (r: Result<Vec<String>, Error>)
    ensures
        spec_split_desc(s@) matches Some(ts) ==> r matches Ok(v) && v.deep_view() == ts,
        spec_split_desc(s@) is None <==> r == Err::<Vec<String>, Error>(
            Error::UnknownDescriptorToken,
        ),
{
    let n = s.unicode_len();
    let mut out: Vec<String> = Vec::new();
    let mut i: usize = 0;
    proof {
        assert(s@.skip(0) =~= s@);
        if spec_split_desc(s@) is Some {
            let rest = spec_split_desc(s@)->0;
            assert(out.deep_view() + rest =~= rest);
        }
    }
    while i < n
        invariant
            0 <= i <= n,
            n == s@.len(),
            spec_split_desc(s@.skip(i as int)) is None ==> spec_split_desc(s@) is None,
            spec_split_desc(s@.skip(i as int)) matches Some(rest) ==> spec_split_desc(s@) == Some(
                out.deep_view() + rest,
            ),
        decreases n - i,
    {
        let ghost u = s@.skip(i as int);
        // step over a run of array prefixes
        let mut k = i;
        while k < n && s.get_char(k) == '['
            invariant
                i <= k <= n,
                n == s@.len(),
                forall|j: int| i <= j < k ==> s@[j] == '[',
            decreases n - k,
        {
            k += 1;
        }
        let ghost m = k - i;
        proof {
            assert forall|j: int| 0 <= j < m implies u[j] == '[' by {
                assert(u[j] == s@[i + j]);
            }
            lemma_split_desc_brackets(u, m as int);
            assert(u.skip(m as int) =~= s@.skip(k as int));
        }
        if k == n {
            proof {
                assert(s@.skip(k as int).len() == 0);
                assert(m > 0);
            }
            return Err(Error::UnknownDescriptorToken);
        }
        let c = s.get_char(k);
        let e: usize = if is_prim_exec(c) {
            k + 1
        } else if c == 'L' {
            let j = find_char(s, ';', k);
            if j == n {
                proof {
                    let w = s@.skip(k as int);
                    assert(!is_prim(w[0]));
                    assert(spec_find(w, ';') == w.len());
                    assert(spec_split_desc(w) is None);
                }
                return Err(Error::UnknownDescriptorToken);
            }
            j + 1
        } else {
            proof {
                let w = s@.skip(k as int);
                assert(w[0] == s@[k as int]);
                assert(spec_split_desc(w) is None);
            }
            return Err(Error::UnknownDescriptorToken);
        };
        let token = String::from_str(s.substring_char(i, e));
        proof {
            let w = s@.skip(k as int);
            let base = s@.subrange(k as int, e as int);
            if is_prim(c) {
                assert(base =~= seq![w[0]]);
                assert(w.skip(1) =~= s@.skip(e as int));
                assert(spec_split_desc(w) matches Some(r2) ==> spec_split_desc(w) == Some(
                    seq![base] + spec_split_desc(s@.skip(e as int))->0,
                ));
            } else {
                let j = e - 1;
                assert(spec_find(w, ';') == j - k);
                assert(w[0] == 'L');
                assert(w.take(j - k + 1) =~= base);
                assert(w.skip(j - k + 1) =~= s@.skip(e as int));
                assert(spec_split_desc(w) matches Some(r2) ==> spec_split_desc(w) == Some(
                    seq![base] + spec_split_desc(s@.skip(e as int))->0,
                ));
            }
            assert(token@ == u.take(m as int) + base) by {
                assert(u.take(m as int) =~= s@.subrange(i as int, k as int));
                assert(s@.subrange(i as int, k as int) + base =~= s@.subrange(i as int, e as int));
            }
            if spec_split_desc(s@.skip(e as int)) is None {
                assert(spec_split_desc(w) is None);
                assert(spec_split_desc(u) is None);
            } else {
                let r3 = spec_split_desc(s@.skip(e as int))->0;
                let rest = seq![base] + r3;
                assert(spec_split_desc(w) == Some(rest));
                assert(rest[0] == base);
                assert(rest.skip(1) =~= r3);
                assert(spec_split_desc(u) == Some(seq![token@] + r3));
            }
        }
        let ghost prev = out.deep_view();
        out.push(token);
        proof {
            assert(out.deep_view() =~= prev.push(token@));
            if spec_split_desc(s@.skip(e as int)) is Some {
                let r3 = spec_split_desc(s@.skip(e as int))->0;
                assert(prev.push(token@) + r3 =~= prev + (seq![token@] + r3));
            }
        }
        i = e;
    }
    proof {
        assert(s@.skip(n as int).len() == 0);
        assert(spec_split_desc(s@.skip(n as int)) == Some(Seq::<Seq<char>>::empty()));
        assert(out.deep_view() + Seq::<Seq<char>>::empty() =~= out.deep_view());
    }
    Ok(out)
}

} // verus!

verus! {

/// The display name of a primitive descriptor character.
pub open spec fn prim_name(c: char) -> Seq<char> {
    if c == 'B' {
        "byte"@
    } else if c == 'C' {
        "char"@
    } else if c == 'D' {
        "double"@
    } else if c == 'F' {
        "float"@
    } else if c == 'I' {
        "int"@
    } else if c == 'J' {
        "long"@
    } else if c == 'S' {
        "short"@
    } else if c == 'Z' {
        "boolean"@
    } else {
        "void"@
    }
}

/// `pre` is a leading run of `whole`, segment for segment.
pub open spec fn seq_has_prefix(whole: Seq<Seq<char>>, pre: Seq<Seq<char>>) -> bool {
    pre.len() <= whole.len() && whole.take(pre.len() as int) == pre
}

/// The inner name of an object token: the text between the leading `L` and a
/// trailing `;`, if one is there.
pub open spec fn spec_inner_name(t: Seq<char>) -> Seq<char> {
    if t.len() > 0 && t.last() == ';' {
        t.subrange(1, t.len() - 1)
    } else {
        t.skip(1)
    }
}

/// A token the resolver can turn into a display name.
pub open spec fn desc_ok(t: Seq<char>) -> bool
    decreases t.len(),
{
    if t.len() == 0 {
        true
    } else if t[0] != '[' && t.contains('$') {
        true
    } else if t.len() == 1 && is_prim(t[0]) {
        true
    } else if t[0] == 'L' {
        true
    } else if t[0] == '[' {
        desc_ok(t.skip(1))
    } else {
        false
    }
}

/// One descriptor token rendered as a display name, against the name index
/// (obfuscated path to real path), the target namespace prefix, the output
/// package and the repackaging table.  `None` for a token outside the
/// grammar.
pub open spec fn spec_resolve(
    t: Seq<char>,
    index: Map<Seq<Seq<char>>, Seq<Seq<char>>>,
    target: Seq<Seq<char>>,
    package: Seq<char>,
    remap: Seq<(Seq<char>, Seq<char>)>,
    wrap: bool,
) -> Option<Seq<char>>
    decreases t.len(),
{
    if t.len() == 0 {
        Some(Seq::empty())
    } else if t[0] != '[' && t.contains('$') {
        Some("Object"@)
    } else if t.len() == 1 && is_prim(t[0]) {
        Some(prim_name(t[0]))
    } else if t[0] == 'L' {
        let inner = spec_inner_name(t);
        let key = spec_split_all(inner, '/');
        if index.contains_key(key) {
            let realpath = index[key];
            if wrap && seq_has_prefix(realpath, target) {
                Some(spec_remap(package + "."@ + spec_join(realpath, "."@), remap))
            } else {
                Some(spec_join(realpath, "."@))
            }
        } else {
            Some(spec_replace(inner, "/"@, "."@))
        }
    } else if t[0] == '[' {
        match spec_resolve(t.skip(1), index, target, package, remap, false) {
            None => None,
            Some(element) => Some(element + "[]"@),
        }
    } else {
        None
    }
}

/// Resolution succeeds exactly on the tokens `desc_ok` admits.
pub proof fn lemma_resolve_some(
    t: Seq<char>,
    index: Map<Seq<Seq<char>>, Seq<Seq<char>>>,
    target: Seq<Seq<char>>,
    package: Seq<char>,
    remap: Seq<(Seq<char>, Seq<char>)>,
    wrap: bool,
)
    ensures
        spec_resolve(t, index, target, package, remap, wrap) is Some <==> desc_ok(t),
    decreases t.len(),
{
    if t.len() > 0 && t[0] == '[' && !(t[0] != '[' && t.contains('$')) && !(t.len() == 1 && is_prim(
        t[0],
    )) && t[0] != 'L' {
        lemma_resolve_some(t.skip(1), index, target, package, remap, false);
    }
}

/// Every token produced by splitting a valid descriptor is resolvable.
pub proof fn lemma_split_tokens_ok(s: Seq<char>)
    requires
        spec_split_desc(s) is Some,
    ensures
        forall|j: int|
            0 <= j < spec_split_desc(s)->0.len() ==> desc_ok(#[trigger] spec_split_desc(s)->0[j]),
    decreases s.len(),
{
    let ts = spec_split_desc(s)->0;
    if s.len() == 0 {
    } else if is_prim(s[0]) {
        lemma_split_tokens_ok(s.skip(1));
        let rest = spec_split_desc(s.skip(1))->0;
        assert forall|j: int| 0 <= j < ts.len() implies desc_ok(#[trigger] ts[j]) by {
            if j == 0 {
                assert(ts[0] =~= seq![s[0]]);
                assert(desc_ok(seq![s[0]]));
            } else {
                assert(ts[j] == rest[j - 1]);
            }
        }
    } else if s[0] == 'L' {
        let i = spec_find(s, ';');
        lemma_split_tokens_ok(s.skip(i + 1));
        let rest = spec_split_desc(s.skip(i + 1))->0;
        assert forall|j: int| 0 <= j < ts.len() implies desc_ok(#[trigger] ts[j]) by {
            if j == 0 {
                assert(ts[0] == s.take(i + 1));
                assert(s.take(i + 1)[0] == 'L');
                if s.take(i + 1)[0] != '[' && s.take(i + 1).contains('$') {
                    assert(desc_ok(s.take(i + 1)));
                } else {
                    assert(desc_ok(s.take(i + 1)));
                }
            } else {
                assert(ts[j] == rest[j - 1]);
            }
        }
    } else {
        assert(s[0] == '[');
        lemma_split_tokens_ok(s.skip(1));
        let rest = spec_split_desc(s.skip(1))->0;
        assert forall|j: int| 0 <= j < ts.len() implies desc_ok(#[trigger] ts[j]) by {
            if j == 0 {
                let tok = seq!['['] + rest[0];
                assert(ts[0] == tok);
                assert(tok[0] == '[');
                assert(tok.skip(1) =~= rest[0]);
                assert(desc_ok(rest[0]));
            } else {
                assert(ts[j] == rest.skip(1)[j - 1]);
                assert(rest.skip(1)[j - 1] == rest[j]);
            }
        }
    }
}

/// `n` closing bracket pairs.
pub open spec fn spec_brackets(n: nat) -> Seq<char>
    decreases n,
{
    if n == 0 {
        Seq::empty()
    } else {
        spec_brackets((n - 1) as nat) + "[]"@
    }
}

/// `t` behind `n` array prefixes.
pub open spec fn spec_array_of(n: nat, t: Seq<char>) -> Seq<char>
    decreases n,
{
    if n == 0 {
        t
    } else {
        seq!['['] + spec_array_of((n - 1) as nat, t)
    }
}

/// Array nesting depth is preserved: a token behind `n` array prefixes
/// renders as its element type, resolved with wrapping disallowed, followed
/// by exactly `n` bracket pairs.
pub proof fn lemma_array_nesting(
    n: nat,
    t: Seq<char>,
    index: Map<Seq<Seq<char>>, Seq<Seq<char>>>,
    target: Seq<Seq<char>>,
    package: Seq<char>,
    remap: Seq<(Seq<char>, Seq<char>)>,
    wrap: bool,
)
    requires
        n >= 1,
        desc_ok(t),
    ensures
        spec_resolve(spec_array_of(n, t), index, target, package, remap, wrap) == Some(
            spec_resolve(t, index, target, package, remap, false)->0 + spec_brackets(n),
        ),
    decreases n,
{
    lemma_resolve_some(t, index, target, package, remap, false);
    let e = spec_resolve(t, index, target, package, remap, false)->0;
    if n == 1 {
        let a = spec_array_of(1, t);
        assert(a[0] == '[');
        assert(a.skip(1) =~= t);
        assert(spec_resolve(a, index, target, package, remap, wrap) == Some(e + "[]"@));
        assert(spec_brackets(1) =~= "[]"@);
        assert(e + spec_brackets(1) =~= e + "[]"@);
    } else {
        lemma_array_nesting((n - 1) as nat, t, index, target, package, remap, false);
        let a = spec_array_of(n, t);
        assert(a[0] == '[');
        assert(a.skip(1) =~= spec_array_of((n - 1) as nat, t));
        assert(spec_resolve(a, index, target, package, remap, wrap) == Some(
            (e + spec_brackets((n - 1) as nat)) + "[]"@,
        ));
        assert((e + spec_brackets((n - 1) as nat)) + "[]"@ =~= e + spec_brackets(n));
    }
}

/// An object token found in the index, lying under the target namespace and
/// resolved with wrapping allowed renders, under an empty repackaging table,
/// with the output package as a prefix.  A found token resolved without
/// wrapping renders as the real path itself, so it carries that prefix only
/// if the real path happens to carry it.
pub proof fn lemma_wrap_package_prefix(
    t: Seq<char>,
    index: Map<Seq<Seq<char>>, Seq<Seq<char>>>,
    target: Seq<Seq<char>>,
    package: Seq<char>,
)
    requires
        t.len() > 0,
        t[0] == 'L',
        !t.contains('$'),
        index.contains_key(spec_split_all(spec_inner_name(t), '/')),
    ensures
        seq_has_prefix(index[spec_split_all(spec_inner_name(t), '/')], target) ==> spec_starts_at(
            spec_resolve(t, index, target, package, Seq::empty(), true)->0,
            package,
            0,
        ),
        !seq_has_prefix(index[spec_split_all(spec_inner_name(t), '/')], target) ==> spec_resolve(
            t,
            index,
            target,
            package,
            Seq::empty(),
            true,
        )->0 == spec_join(index[spec_split_all(spec_inner_name(t), '/')], "."@),
        spec_resolve(t, index, target, package, Seq::empty(), false)->0 == spec_join(
            index[spec_split_all(spec_inner_name(t), '/')],
            "."@,
        ),
{
    let realpath = index[spec_split_all(spec_inner_name(t), '/')];
    if seq_has_prefix(realpath, target) {
        let full = package + "."@ + spec_join(realpath, "."@);
        assert(spec_resolve(t, index, target, package, Seq::empty(), true) == Some(full));
        assert(full.subrange(0, package.len() as int) =~= package);
    }
}

} // verus!

verus! {

/// Whether the resolver can turn this token into a display name.
pub fn desc_ok_exec(t: &str) -> (r: bool)
    ensures
        r == desc_ok(t@),
    decreases t@.len(),
{
    let n = t.unicode_len();
    if n == 0 {
        return true;
    }
    let c0 = t.get_char(0);
    if c0 != '[' && contains_char(t, '$') {
        return true;
    }
    if n == 1 && is_prim_exec(c0) {
        return true;
    }
    if c0 == 'L' {
        return true;
    }
    if c0 == '[' {
        let rest = t.substring_char(1, n);
        proof {
            assert(rest@ =~= t@.skip(1));
        }
        return desc_ok_exec(rest);
    }
    false
}

} // verus!

verus! {

/// Segment-for-segment test that `pre` is a leading run of `whole`.
fn has_prefix_vec(whole: &Vec<String>, pre: &Vec<String>) -> (r: bool)
    ensures
        r == seq_has_prefix(whole.deep_view(), pre.deep_view()),
{
    if pre.len() > whole.len() {
        return false;
    }
    let mut i: usize = 0;
    while i < pre.len()
        invariant
            0 <= i <= pre.len() <= whole.len(),
            forall|l: int| 0 <= l < i ==> whole.deep_view()[l] == pre.deep_view()[l],
        decreases pre.len() - i,
    {
        if !crate::strutil::str_eq(whole[i].as_str(), pre[i].as_str()) {
            proof {
                assert(whole.deep_view()[i as int] == whole[i as int]@);
                assert(pre.deep_view()[i as int] == pre[i as int]@);
                assert(whole.deep_view().take(pre.deep_view().len() as int)[i as int]
                    == whole.deep_view()[i as int]);
            }
            return false;
        }
        proof {
            assert(whole.deep_view()[i as int] == whole[i as int]@);
            assert(pre.deep_view()[i as int] == pre[i as int]@);
        }
        i += 1;
    }
    proof {
        assert(whole.deep_view().take(pre.deep_view().len() as int) =~= pre.deep_view());
    }
    true
}

fn prim_name_exec(c: char) -> (r: String)
    requires
        is_prim(c),
    ensures
        r@ == prim_name(c),
{
    if c == 'B' {
        String::from_str("byte")
    } else if c == 'C' {
        String::from_str("char")
    } else if c == 'D' {
        String::from_str("double")
    } else if c == 'F' {
        String::from_str("float")
    } else if c == 'I' {
        String::from_str("int")
    } else if c == 'J' {
        String::from_str("long")
    } else if c == 'S' {
        String::from_str("short")
    } else if c == 'Z' {
        String::from_str("boolean")
    } else {
        String::from_str("void")
    }
}

/// Resolve one descriptor token to a display name.  An object token is
/// looked up in the index by its inner name: when found under the target
/// namespace with wrapping allowed, the output package is prepended and the
/// repackaging table applied; when found otherwise, the dotted real path is
/// used; when absent, the inner name passes through with dots for slashes.
/// An array token resolves its element with wrapping disallowed and appends
/// one bracket pair.  A token with the synthetic-class marker collapses to
/// the generic object type.
pub fn resolve_type_name(
    token: &str,
    index: &crate::index::Index,
    target: &Vec<String>,
    package: &str,
    remap: &Vec<(String, String)>,
    wrap_allowed: bool,
) -> (r: Result<String, Error>)
    ensures
        spec_resolve(
            token@,
            crate::index::spec_real_map(index@),
            target.deep_view(),
            package@,
            remap.deep_view(),
            wrap_allowed,
        ) matches Some(x) ==> r matches Ok(name) && name@ == x,
        spec_resolve(
            token@,
            crate::index::spec_real_map(index@),
            target.deep_view(),
            package@,
            remap.deep_view(),
            wrap_allowed,
        ) is None <==> r == Err::<String, Error>(Error::UnknownDescriptorToken),
    decreases token@.len(),
{
    let ghost m = crate::index::spec_real_map(index@);
    let n = token.unicode_len();
    if n == 0 {
        return Ok(String::new());
    }
    let c0 = token.get_char(0);
    if c0 != '[' && contains_char(token, '$') {
        return Ok(String::from_str("Object"));
    }
    if n == 1 && is_prim_exec(c0) {
        return Ok(prim_name_exec(c0));
    }
    if c0 == 'L' {
        let inner = if token.get_char(n - 1) == ';' {
            token.substring_char(1, n - 1)
        } else {
            token.substring_char(1, n)
        };
        proof {
            assert(token@.subrange(1, n as int) =~= token@.skip(1));
            assert(inner@ == spec_inner_name(token@));
        }
        match index.get_str(inner) {
            Some(class) => {
                proof {
                    assert(m.contains_key(spec_split_all(inner@, '/')));
                    assert(m[spec_split_all(inner@, '/')] == class.real_name.deep_view());
                }
                let under = has_prefix_vec(&class.real_name, target);
                if wrap_allowed && under {
                    let mut full = String::from_str(package);
                    full.append(".");
                    let joined = crate::strutil::join_all(&class.real_name, ".");
                    full.append(joined.as_str());
                    proof {
                        assert(full@ == package@ + "."@ + spec_join(
                            class.real_name.deep_view(),
                            "."@,
                        ));
                    }
                    Ok(crate::strutil::apply_remap(full.as_str(), remap))
                } else {
                    Ok(crate::strutil::join_all(&class.real_name, "."))
                }
            },
            None => {
                proof {
                    assert(!m.contains_key(spec_split_all(inner@, '/')));
                }
                Ok(crate::strutil::replace_str(inner, "/", "."))
            },
        }
    } else if c0 == '[' {
        let rest = token.substring_char(1, n);
        proof {
            assert(rest@ =~= token@.skip(1));
        }
        match resolve_type_name(rest, index, target, package, remap, false) {
            Err(e) => Err(e),
            Ok(element) => {
                let mut out = element;
                out.append("[]");
                Ok(out)
            },
        }
    } else {
        Err(Error::UnknownDescriptorToken)
    }
}

} // verus!
