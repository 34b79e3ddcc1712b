//! The name index: a lookup table from obfuscated identifier path to parsed
//! class record, built once over every mapping unit and read-only afterwards.

use vstd::prelude::*;
use vstd::string::StrSliceExecFns;

use crate::Error;
use crate::class::Class;
use crate::class::SpecClass;
use crate::class::class_wf;
use crate::class::spec_parse;
use crate::strutil::spec_split_all;
use crate::strutil::split_all;
use crate::strutil::str_eq;

verus! {

/// The records folded into a lookup table: a later record with the same
/// obfuscated path silently overwrites an earlier one.
pub open spec fn spec_index_map(cs: Seq<SpecClass>) -> Map<Seq<Seq<char>>, SpecClass>
    decreases cs.len(),
{
    if cs.len() == 0 {
        Map::empty()
    } else {
        spec_index_map(cs.drop_last()).insert(cs.last().obfuscated, cs.last())
    }
}

/// The table restricted to what type resolution reads: each key's real path.
pub open spec fn spec_real_map(m: Map<Seq<Seq<char>>, SpecClass>) -> Map<
    Seq<Seq<char>>,
    Seq<Seq<char>>,
> {
    Map::new(|k: Seq<Seq<char>>| m.contains_key(k), |k: Seq<Seq<char>>| m[k].real_name)
}

/// The units parsed in order; an error names the failing unit and its line.
pub open spec fn spec_parse_units(ts: Seq<Seq<char>>) -> Result<Seq<SpecClass>, (Error, int, int)>
    decreases ts.len(),
{
    if ts.len() == 0 {
        Ok(Seq::empty())
    } else {
        match spec_parse(ts[0]) {
            Err((e, l)) => Err((e, 0, l)),
            Ok(c) => match spec_parse_units(ts.skip(1)) {
                Err((e, u, l)) => Err((e, u + 1, l)),
                Ok(rest) => Ok(seq![c] + rest),
            },
        }
    }
}

/// The index of the last record carrying this obfuscated path, or -1.
pub open spec fn spec_last_match(cs: Seq<SpecClass>, k: Seq<Seq<char>>) -> int
    decreases cs.len(),
{
    if cs.len() == 0 {
        -1
    } else if cs.last().obfuscated == k {
        cs.len() - 1
    } else {
        spec_last_match(cs.drop_last(), k)
    }
}

pub proof fn lemma_last_match(cs: Seq<SpecClass>, k: Seq<Seq<char>>)
    ensures
        spec_last_match(cs, k) >= -1,
        spec_index_map(cs).contains_key(k) <==> spec_last_match(cs, k) >= 0,
        spec_last_match(cs, k) >= 0 ==> spec_last_match(cs, k) < cs.len() && cs[spec_last_match(
            cs,
            k,
        )].obfuscated == k && spec_index_map(cs)[k] == cs[spec_last_match(cs, k)],
        forall|l: int| spec_last_match(cs, k) < l < cs.len() ==> cs[l].obfuscated != k,
    decreases cs.len(),
{
    if cs.len() == 0 {
    } else if cs.last().obfuscated == k {
    } else {
        lemma_last_match(cs.drop_last(), k);
        assert(cs.drop_last() =~= cs.subrange(0, cs.len() - 1));
        let i = spec_last_match(cs, k);
        assert forall|l: int| i < l < cs.len() implies cs[l].obfuscated != k by {
            if 0 <= l && l < cs.len() - 1 {
                assert(cs.subrange(0, cs.len() - 1)[l] == cs[l]);
                assert(cs.drop_last()[l].obfuscated != k);
            }
        }
        if i >= 0 {
            assert(cs.drop_last()[i] == cs[i]);
        }
    }
}

/// The name index.  Records are kept in arrival order; lookups see the
/// latest record for each obfuscated path.
#[derive(Debug)]
pub struct Index {
    classes: Vec<Class>,
}

impl View for Index {
    type V = Map<Seq<Seq<char>>, SpecClass>;

    closed spec fn view(&self) -> Map<Seq<Seq<char>>, SpecClass> {
        spec_index_map(self.classes.deep_view())
    }
}

impl Index {
    /// The records held, in arrival order.
    pub closed spec fn records(&self) -> Seq<SpecClass> {
        self.classes.deep_view()
    }

    /// Every held record is well formed, so the generator can render it.
    pub open spec fn wf(&self) -> bool {
        &&& self@ == spec_index_map(self.records())
        &&& forall|i: int| 0 <= i < self.records().len() ==> class_wf(#[trigger] self.records()[i])
    }

    /// Build the index over every mapping unit's text.  Parsing the units in
    /// order, a later unit with the same obfuscated path overwrites an
    /// earlier one.  A parse failure aborts the build, naming the failing
    /// unit and line.
    pub fn new(texts: &Vec<String>) -> (r: Result<Index, (Error, usize, usize)>)
        ensures
            spec_parse_units(texts.deep_view()) matches Ok(cs) ==> r matches Ok(ix) && ix.records()
                == cs && ix.wf(),
            spec_parse_units(texts.deep_view()) matches Err(e) ==> r matches Err(e2) && e2.0 == e.0
                && e2.1 as int == e.1 && e2.2 as int == e.2,
    {
        let ghost ts = texts.deep_view();
        let mut classes: Vec<Class> = Vec::new();
        let mut u: usize = 0;
        proof {
            assert(ts.skip(0) =~= ts);
        }
        while u < texts.len()
            invariant
                0 <= u <= texts.len(),
                ts == texts.deep_view(),
                spec_parse_units(ts.skip(u as int)) matches Ok(rest) ==> spec_parse_units(ts)
                    == Ok::<Seq<SpecClass>, (Error, int, int)>(classes.deep_view() + rest),
                spec_parse_units(ts.skip(u as int)) matches Err(e) ==> spec_parse_units(ts)
                    matches Err(e2) && e2.0 == e.0 && e2.1 == e.1 + u && e2.2 == e.2,
                forall|i: int|
                    0 <= i < classes.deep_view().len() ==> class_wf(
                        #[trigger] classes.deep_view()[i],
                    ),
            decreases texts.len() - u,
        {
            let ghost rem = ts.skip(u as int);
            proof {
                assert(rem[0] == ts[u as int]);
                assert(rem.skip(1) =~= ts.skip(u + 1));
                assert(texts.deep_view()[u as int] == texts[u as int]@);
            }
            match Class::from_str(texts[u].as_str()) {
                Err((e, l)) => {
                    return Err((e, u, l));
                },
                Ok(c) => {
                    let ghost prev = classes.deep_view();
                    let ghost cv = c@;
                    classes.push(c);
                    proof {
                        assert(classes.deep_view() =~= prev.push(cv));
                        if spec_parse_units(ts.skip(u + 1)) is Ok {
                            let rest2 = spec_parse_units(ts.skip(u + 1))->Ok_0;
                            assert(prev.push(cv) + rest2 =~= prev + (seq![cv] + rest2));
                        }
                    }
                },
            }
            u += 1;
        }
        proof {
            assert(ts.skip(texts.len() as int) =~= Seq::<Seq<char>>::empty());
            assert(classes.deep_view() + Seq::<SpecClass>::empty() =~= classes.deep_view());
        }
        Ok(Index { classes })
    }

    /// Look a record up by its obfuscated path segments.
    pub fn get(&self, ident: &[String]) -> (r: Option<&Class>)
        ensures
            r matches Some(c) ==> self@.contains_key(ident.deep_view()) && c@ == self@[ident.deep_view()],
            r is None ==> !self@.contains_key(ident.deep_view()),
    {
        let ghost cs = self.classes.deep_view();
        let ghost k = ident.deep_view();
        proof {
            lemma_last_match(cs, k);
        }
        let mut j: usize = self.classes.len();
        while j > 0
            invariant
                0 <= j <= self.classes.len(),
                cs == self.classes.deep_view(),
                k == ident.deep_view(),
                forall|l: int| j <= l < cs.len() ==> cs[l].obfuscated != k,
            decreases j,
        {
            j -= 1;
            if path_eq(&self.classes[j].obfuscated, ident) {
                proof {
                    lemma_last_match(cs, k);
                    assert(self.classes.deep_view()[j as int] == self.classes[j as int]@);
                    assert(cs[j as int].obfuscated == k);
                    assert(spec_last_match(cs, k) == j as int) by {
                        let m = spec_last_match(cs, k);
                        if m < j {
                            assert(cs[j as int].obfuscated != k);
                        }
                        if m > j {
                            assert(cs[m].obfuscated != k);
                        }
                    }
                }
                return Some(&self.classes[j]);
            }
            proof {
                assert(self.classes.deep_view()[j as int] == self.classes[j as int]@);
            }
        }
        proof {
            lemma_last_match(cs, k);
            let m = spec_last_match(cs, k);
            if m >= 0 {
                assert(cs[m].obfuscated == k);
                assert(cs[m].obfuscated != k);
            }
        }
        None
    }

    /// Look a record up by a slash-delimited obfuscated path.
    pub fn get_str(&self, ident: &str) -> (r: Option<&Class>)
        ensures
            r matches Some(c) ==> self@.contains_key(spec_split_all(ident@, '/')) && c@
                == self@[spec_split_all(ident@, '/')],
            r is None ==> !self@.contains_key(spec_split_all(ident@, '/')),
    {
        let key = split_all(ident, '/');
        let ks: &[String] = key.as_slice();
        proof {
            assert(ks.deep_view() =~~= spec_split_all(ident@, '/'));
        }
        self.get(ks)
    }
}

/// Segment-for-segment equality of two identifier paths.
fn path_eq(a: &Vec<String>, b: &[String]) -> (r: bool)
    ensures
        r == (a.deep_view() == b.deep_view()),
{
    if a.len() != b.len() {
        proof {
            assert(a.deep_view().len() == a.len() && b.deep_view().len() == b.len());
        }
        return false;
    }
    let mut i: usize = 0;
    while i < a.len()
        invariant
            0 <= i <= a.len(),
            a.len() == b.len(),
            forall|l: int| 0 <= l < i ==> a.deep_view()[l] == b.deep_view()[l],
        decreases a.len() - i,
    {
        if !str_eq(a[i].as_str(), b[i].as_str()) {
            proof {
                assert(a.deep_view()[i as int] == a[i as int]@);
                assert(b.deep_view()[i as int] == b[i as int]@);
            }
            return false;
        }
        proof {
            assert(a.deep_view()[i as int] == a[i as int]@);
            assert(b.deep_view()[i as int] == b[i as int]@);
        }
        i += 1;
    }
    proof {
        assert(a.deep_view() =~= b.deep_view());
    }
    true
}

} // verus!

verus! {

impl Index {
    /// Render every held record: for each one, the generated file's path
    /// relative to the output root, and the file's full text.  Writing the
    /// files is the caller's concern.
    #[verifier::loop_isolation(false)]
    pub fn write(
        &self,
        index: &Index,
        package: &str,
        remap: &Vec<(String, String)>,
    ) -> (r: Vec<(String, String)>)
        requires
            self.wf(),
        ensures
            r.len() == self.records().len(),
            forall|i: int|
                0 <= i < r.len() ==> (#[trigger] r.deep_view()[i]).0 == crate::class::spec_output_path(
                    self.records()[i],
                    package@,
                    remap.deep_view(),
                ) && r.deep_view()[i].1 == crate::class::spec_class_text(
                    self.records()[i],
                    spec_real_map(index@),
                    package@,
                    remap.deep_view(),
                    self.records()[i].real_name.last(),
                ),
    {
        let mut out: Vec<(String, String)> = Vec::new();
        let mut k: usize = 0;
        while k < self.classes.len()
            invariant
                0 <= k <= self.classes.len(),
                out.len() == k,
                forall|i: int|
                    0 <= i < k ==> (#[trigger] out.deep_view()[i]).0
                        == crate::class::spec_output_path(
                        self.records()[i],
                        package@,
                        remap.deep_view(),
                    ) && out.deep_view()[i].1 == crate::class::spec_class_text(
                        self.records()[i],
                        spec_real_map(index@),
                        package@,
                        remap.deep_view(),
                        self.records()[i].real_name.last(),
                    ),
            decreases self.classes.len() - k,
        {
            let c = &self.classes[k];
            proof {
                assert(self.classes.deep_view()[k as int] == self.classes[k as int]@);
                assert(class_wf(c@));
                assert(c@.real_name.len() >= 1);
            }
            let path = c.output_path(package, remap);
            let simple = &c.real_name[c.real_name.len() - 1];
            proof {
                assert(c.real_name.deep_view()[c.real_name.len() - 1]
                    == c.real_name[c.real_name.len() - 1]@);
            }
            let text = c.to_string(index, package, remap, simple.as_str());
            let ghost ov = out.deep_view();
            let ghost pv = (path@, text@);
            out.push((path, text));
            proof {
                assert(out.deep_view() =~~= ov.push(pv));
            }
            k += 1;
        }
        out
    }
}

} // verus!
