//! One mapping unit: the class record parsed from its line-oriented text,
//! and the rendering of that record as a Java wrapper source file.

use vstd::prelude::*;
use vstd::string::StrSliceExecFns;
use vstd::string::StringExecFns;

use crate::Error;
use crate::descriptor::desc_ok;
use crate::descriptor::spec_split_desc;
use crate::strutil::contains_char;
use crate::strutil::lines;
use crate::strutil::spec_find;
use crate::strutil::spec_join;
use crate::strutil::spec_lines;
use crate::strutil::spec_remap;
use crate::strutil::spec_replace;
use crate::strutil::spec_split2;
use crate::strutil::spec_split3;
use crate::strutil::spec_split_all;
use crate::strutil::spec_trim;
use crate::strutil::spec_trim_char_both;
use crate::strutil::spec_trim_char_end;
use crate::strutil::split3_space;
use crate::strutil::split_all;
use crate::strutil::split_once_space;
use crate::strutil::str_eq;
use crate::strutil::trim;
use crate::strutil::trim_char_both;
use crate::strutil::trim_char_end;

verus! {

/// The mathematical value of one member of a mapping unit.
#[verifier::ext_equal]
pub enum SpecEntry {
    Field { label: Seq<char>, type_descriptor: Seq<char> },
    Method {
        label: Seq<char>,
        raw_param_descriptor: Seq<char>,
        parameters: Seq<(Seq<char>, Seq<Seq<char>>)>,
        return_descriptor: Seq<char>,
    },
}

/// One member of a mapping unit: a field, or a method with its parameter
/// names and their attached comments.  A constructor is a method whose label
/// is the reserved marker `<init>`.
#[derive(Debug)]
pub enum Entry {
    Field { label: String, type_descriptor: String },
    Method {
        label: String,
        raw_param_descriptor: String,
        parameters: Vec<(String, Vec<String>)>,
        return_descriptor: String,
    },
}

impl View for Entry {
    type V = SpecEntry;

    open spec fn view(&self) -> SpecEntry {
        match self {
            Entry::Field { label, type_descriptor } => SpecEntry::Field {
                label: label@,
                type_descriptor: type_descriptor@,
            },
            Entry::Method { label, raw_param_descriptor, parameters, return_descriptor } => {
                SpecEntry::Method {
                    label: label@,
                    raw_param_descriptor: raw_param_descriptor@,
                    parameters: parameters.deep_view(),
                    return_descriptor: return_descriptor@,
                }
            },
        }
    }
}

impl DeepView for Entry {
    type V = SpecEntry;

    open spec fn deep_view(&self) -> SpecEntry {
        self.view()
    }
}

/// The label of a member.
pub open spec fn entry_label(e: SpecEntry) -> Seq<char> {
    match e {
        SpecEntry::Field { label, .. } => label,
        SpecEntry::Method { label, .. } => label,
    }
}

/// A member that can still take the pending comment buffer itself: a field,
/// or a method with no parameters yet.
pub open spec fn spec_entry_is_empty(e: SpecEntry) -> bool {
    match e {
        SpecEntry::Field { .. } => true,
        SpecEntry::Method { parameters, .. } => parameters.len() == 0,
    }
}

/// A placeholder member produced by a malformed method line; its empty label
/// has it discarded before the record is finalized.
pub open spec fn spec_dummy_method() -> SpecEntry {
    SpecEntry::Method {
        label: Seq::empty(),
        raw_param_descriptor: Seq::empty(),
        parameters: Seq::empty(),
        return_descriptor: Seq::empty(),
    }
}

pub open spec fn spec_dummy_field() -> SpecEntry {
    SpecEntry::Field { label: Seq::empty(), type_descriptor: Seq::empty() }
}

/// A method member built from a label and the `(…)…` signature text: the raw
/// parameter descriptor is the text between the leading `(` and the first
/// `)`, the return descriptor what follows, stripped of trailing `;`.  A
/// signature without `)` or with nothing before it yields the placeholder.
pub open spec fn spec_mk_method(label: Seq<char>, signature: Seq<char>) -> SpecEntry {
    let i = spec_find(signature, ')');
    if i >= signature.len() || i == 0 {
        spec_dummy_method()
    } else {
        SpecEntry::Method {
            label,
            raw_param_descriptor: signature.subrange(1, i),
            parameters: Seq::empty(),
            return_descriptor: spec_trim_char_end(signature.skip(i + 1), ';'),
        }
    }
}

/// A method member parsed from the text after the `METHOD` tag:
/// `<obfuscated> <label> <signature>`, or `<label> <signature>` for a
/// self-mapped name; anything else yields the placeholder.
pub open spec fn spec_method(sig: Seq<char>) -> SpecEntry {
    let parts = spec_split3(sig);
    if parts.len() == 3 {
        spec_mk_method(parts[1], parts[2])
    } else if parts.len() == 2 {
        spec_mk_method(parts[0], parts[1])
    } else {
        spec_dummy_method()
    }
}

/// A field member parsed from the text after the `FIELD` tag:
/// `<obfuscated> <label> <descriptor>`, the descriptor stripped of `;` at
/// both ends; anything else yields the placeholder.
pub open spec fn spec_field(sig: Seq<char>) -> SpecEntry {
    let parts = spec_split3(sig);
    if parts.len() == 3 {
        SpecEntry::Field { label: parts[1], type_descriptor: spec_trim_char_both(parts[2], ';') }
    } else {
        spec_dummy_field()
    }
}

/// The member after appending the parameter named in an `ARG` line's text
/// `<slot-index> <name>`: everything after the first space is the name.  A
/// field takes no parameter; a line without a name field is unrecognized.
pub open spec fn spec_push_arg(e: SpecEntry, arg: Seq<char>) -> Result<SpecEntry, Error> {
    match e {
        SpecEntry::Field { .. } => Err(Error::ArgWithoutMethod),
        SpecEntry::Method { label, raw_param_descriptor, parameters, return_descriptor } => {
            match spec_split2(arg).1 {
                None => Err(Error::UnrecognizedLineVariant),
                Some(name) => Ok(
                    SpecEntry::Method {
                        label,
                        raw_param_descriptor,
                        parameters: parameters.push((name, Seq::empty())),
                        return_descriptor,
                    },
                ),
            }
        },
    }
}

/// The member after attaching buffered comments to its most recently
/// appended parameter.  A field cannot carry a per-argument comment, and a
/// method without parameters has no argument to attach to.
pub open spec fn spec_insert_comment(e: SpecEntry, comments: Seq<Seq<char>>) -> Result<
    SpecEntry,
    Error,
> {
    match e {
        SpecEntry::Field { .. } => Err(Error::CommentOnField),
        SpecEntry::Method { label, raw_param_descriptor, parameters, return_descriptor } => {
            if parameters.len() == 0 {
                Err(Error::ArgWithoutMethod)
            } else {
                Ok(
                    SpecEntry::Method {
                        label,
                        raw_param_descriptor,
                        parameters: parameters.update(
                            parameters.len() - 1,
                            (parameters.last().0, comments),
                        ),
                        return_descriptor,
                    },
                )
            }
        },
    }
}

impl Entry {
    /// Parse a method member from the text after the `METHOD` tag.
    pub fn method(sig: &str) -> (r: Entry)
        ensures
            r@ == spec_method(sig@),
    {
        let mut parts = split3_space(sig);
        if parts.len() == 3 {
            let signature = parts.pop().unwrap();
            let label = parts.pop().unwrap();
            Self::mk_method(label, signature.as_str())
        } else if parts.len() == 2 {
            let signature = parts.pop().unwrap();
            let label = parts.pop().unwrap();
            Self::mk_method(label, signature.as_str())
        } else {
            Self::dummy_method()
        }
    }

    fn mk_method(label: String, signature: &str) -> (r: Entry)
        ensures
            r@ == spec_mk_method(label@, signature@),
    {
        let n = signature.unicode_len();
        let i = crate::strutil::find_char(signature, ')', 0);
        proof {
            assert(signature@.skip(0) =~= signature@);
        }
        if i == n || i == 0 {
            Self::dummy_method()
        } else {
            let e = Entry::Method {
                label,
                raw_param_descriptor: String::from_str(signature.substring_char(1, i)),
                parameters: Vec::new(),
                return_descriptor: trim_char_end(
                    String::from_str(signature.substring_char(i + 1, n)).as_str(),
                    ';',
                ),
            };
            proof {
                assert(signature@.subrange(i + 1, n as int) =~= signature@.skip(i + 1));
                assert(e@ =~~= spec_mk_method(label@, signature@));
            }
            e
        }
    }

    fn dummy_method() -> (r: Entry)
        ensures
            r@ == spec_dummy_method(),
    {
        let e = Entry::Method {
            label: String::new(),
            raw_param_descriptor: String::new(),
            parameters: Vec::new(),
            return_descriptor: String::new(),
        };
        proof {
            assert(e@ =~~= spec_dummy_method());
        }
        e
    }

    /// Parse a field member from the text after the `FIELD` tag.
    pub fn field(sig: &str) -> (r: Entry)
        ensures
            r@ == spec_field(sig@),
    {
        let mut parts = split3_space(sig);
        if parts.len() == 3 {
            let descriptor = parts.pop().unwrap();
            let label = parts.pop().unwrap();
            Entry::Field { label, type_descriptor: trim_char_both(descriptor.as_str(), ';') }
        } else {
            Entry::Field { label: String::new(), type_descriptor: String::new() }
        }
    }

    /// A member worth keeping: its label is not empty.
    pub fn not_dummy(pair: &(Entry, Vec<String>)) -> (r: bool)
        ensures
            r == (entry_label(pair.0@).len() > 0),
    {
        match &pair.0 {
            Entry::Field { label, .. } => label.as_str().unicode_len() > 0,
            Entry::Method { label, .. } => label.as_str().unicode_len() > 0,
        }
    }

    /// Whether the pending comment buffer would still target this member
    /// itself: a field, or a method with no parameters yet.
    pub fn is_empty(&self) -> (r: bool)
        ensures
            r == spec_entry_is_empty(self@),
    {
        match self {
            Entry::Field { .. } => true,
            Entry::Method { parameters, .. } => parameters.len() == 0,
        }
    }

    /// Append the parameter named by an `ARG` line's text.
    pub fn push_arg(&mut self, arg: String) -> (r: Result<(), Error>)
        ensures
            spec_push_arg(old(self)@, arg@) matches Ok(e) ==> r is Ok && final(self)@ == e,
            spec_push_arg(old(self)@, arg@) matches Err(er) ==> r == Err::<(), Error>(er)
                && final(self)@ == old(self)@,
    {
        match self {
            Entry::Field { .. } => Err(Error::ArgWithoutMethod),
            Entry::Method { parameters, .. } => {
                let (_slot, name) = split_once_space(arg.as_str());
                match name {
                    None => Err(Error::UnrecognizedLineVariant),
                    Some(name) => {
                        let ghost prev = parameters.deep_view();
                        let ghost nm = name@;
                        parameters.push((name, Vec::new()));
                        proof {
                            assert(parameters.deep_view() =~~= prev.push((nm, Seq::empty())));
                        }
                        Ok(())
                    },
                }
            },
        }
    }

    /// Attach buffered comments to the most recently appended parameter.
    pub fn insert_comment(&mut self, comments: Vec<String>) -> (r: Result<(), Error>)
        ensures
            spec_insert_comment(old(self)@, comments.deep_view()) matches Ok(e) ==> r is Ok
                && final(self)@ == e,
            spec_insert_comment(old(self)@, comments.deep_view()) matches Err(er) ==> r == Err::<
                (),
                Error,
            >(er) && final(self)@ == old(self)@,
    {
        match self {
            Entry::Field { .. } => Err(Error::CommentOnField),
            Entry::Method { parameters, .. } => {
                if parameters.len() == 0 {
                    Err(Error::ArgWithoutMethod)
                } else {
                    let ghost prev = parameters.deep_view();
                    let ghost cm = comments.deep_view();
                    let last = parameters.pop().unwrap();
                    parameters.push((last.0, comments));
                    proof {
                        assert(parameters.deep_view() =~~= prev.update(
                            prev.len() - 1,
                            (prev.last().0, cm),
                        ));
                    }
                    Ok(())
                }
            },
        }
    }
}

} // verus!

verus! {

/// The running state of the member parser: the class comment slot (filled
/// once the first member line is processed), the pending comment buffer, and
/// the members emitted so far with their comment slots.
#[verifier::ext_equal]
pub struct ParseState {
    pub class_comment: Option<Seq<Seq<char>>>,
    pub buf: Seq<Seq<char>>,
    pub entries: Seq<(SpecEntry, Seq<Seq<char>>)>,
}

pub open spec fn spec_init_state() -> ParseState {
    ParseState { class_comment: None, buf: Seq::empty(), entries: Seq::empty() }
}

/// What one member-parser step does.
pub enum StepResult {
    Next(ParseState),
    Stop,
    Fail(Error),
}

/// The comment buffer flushed at a `METHOD` or `FIELD` line, after the new
/// member `e` is appended.  At the very first member line the buffer becomes
/// the class comment; afterwards it goes to the previous member itself while
/// that member is still empty, and to that member's last argument otherwise.
pub open spec fn spec_flush_member(st: ParseState, e: SpecEntry) -> StepResult {
    let pushed = st.entries.push((e, Seq::empty()));
    if st.class_comment is None {
        StepResult::Next(
            ParseState { class_comment: Some(st.buf), buf: Seq::empty(), entries: pushed },
        )
    } else if st.entries.len() == 0 {
        StepResult::Next(ParseState { class_comment: st.class_comment, buf: Seq::empty(), entries: pushed })
    } else {
        let prev = st.entries.last();
        if spec_entry_is_empty(prev.0) {
            StepResult::Next(
                ParseState {
                    class_comment: st.class_comment,
                    buf: Seq::empty(),
                    entries: st.entries.update(st.entries.len() - 1, (prev.0, st.buf)).push(
                        (e, Seq::empty()),
                    ),
                },
            )
        } else {
            match spec_insert_comment(prev.0, st.buf) {
                Err(er) => StepResult::Fail(er),
                Ok(e1) => StepResult::Next(
                    ParseState {
                        class_comment: st.class_comment,
                        buf: Seq::empty(),
                        entries: st.entries.update(st.entries.len() - 1, (e1, prev.1)).push(
                            (e, Seq::empty()),
                        ),
                    },
                ),
            }
        }
    }
}

/// One line of a mapping unit consumed: the line is trimmed, its leading
/// word picks the variant, and the comment buffer is flushed as the
/// attachment rules say.
pub open spec fn spec_step(st: ParseState, line: Seq<char>) -> StepResult {
    let t = spec_trim(line);
    let (word, rest) = spec_split2(t);
    if word == "COMMENT"@ {
        let content = match rest {
            Some(c) => c,
            None => Seq::empty(),
        };
        StepResult::Next(
            ParseState {
                class_comment: st.class_comment,
                buf: st.buf.push(content),
                entries: st.entries,
            },
        )
    } else if word == "METHOD"@ && rest is Some {
        spec_flush_member(st, spec_method(rest->0))
    } else if word == "FIELD"@ && rest is Some {
        spec_flush_member(st, spec_field(rest->0))
    } else if word == "ARG"@ && rest is Some {
        if st.entries.len() == 0 {
            StepResult::Fail(Error::ArgWithoutMethod)
        } else {
            let prev = st.entries.last();
            if spec_entry_is_empty(prev.0) {
                match spec_push_arg(prev.0, rest->0) {
                    Err(er) => StepResult::Fail(er),
                    Ok(e2) => StepResult::Next(
                        ParseState {
                            class_comment: st.class_comment,
                            buf: Seq::empty(),
                            entries: st.entries.update(st.entries.len() - 1, (e2, st.buf)),
                        },
                    ),
                }
            } else {
                match spec_insert_comment(prev.0, st.buf) {
                    Err(er) => StepResult::Fail(er),
                    Ok(e1) => match spec_push_arg(e1, rest->0) {
                        Err(er) => StepResult::Fail(er),
                        Ok(e2) => StepResult::Next(
                            ParseState {
                                class_comment: st.class_comment,
                                buf: Seq::empty(),
                                entries: st.entries.update(st.entries.len() - 1, (e2, prev.1)),
                            },
                        ),
                    },
                }
            }
        }
    } else if word == "CLASS"@ && rest is Some {
        StepResult::Stop
    } else {
        StepResult::Fail(Error::UnrecognizedLineVariant)
    }
}

/// The member lines of a unit folded from line `i` on; an error carries the
/// index of the offending line.
pub open spec fn spec_run(lines: Seq<Seq<char>>, i: int, st: ParseState) -> Result<
    ParseState,
    (Error, int),
>
    decreases lines.len() - i,
{
    if i < 0 || i >= lines.len() {
        Ok(st)
    } else {
        match spec_step(st, lines[i]) {
            StepResult::Fail(e) => Err((e, i)),
            StepResult::Stop => Ok(st),
            StepResult::Next(st2) => spec_run(lines, i + 1, st2),
        }
    }
}

/// A member that survives finalization: its label is not empty, and a method
/// carries at least one declared parameter.
pub open spec fn spec_keep(e: SpecEntry) -> bool {
    entry_label(e).len() > 0 && match e {
        SpecEntry::Field { .. } => true,
        SpecEntry::Method { parameters, .. } => parameters.len() > 0,
    }
}

/// The members kept after discarding dummies, in order.
pub open spec fn spec_kept(es: Seq<(SpecEntry, Seq<Seq<char>>)>) -> Seq<
    (SpecEntry, Seq<Seq<char>>),
>
    decreases es.len(),
{
    if es.len() == 0 {
        Seq::empty()
    } else {
        let rest = spec_kept(es.skip(1));
        if spec_keep(es[0].0) {
            seq![es[0]] + rest
        } else {
            rest
        }
    }
}

/// The descriptor actually resolved for a field or return type: one holding
/// the synthetic-class marker collapses to the generic object descriptor.
pub open spec fn spec_dollar_adjust(t: Seq<char>) -> Seq<char> {
    if t.contains('$') {
        "LObject"@
    } else {
        t
    }
}

/// The fatal fault a finalized member would raise at generation time, if
/// any: an undecodable descriptor, or a parameter-name count that does not
/// match the decoded parameter-token count.
pub open spec fn spec_entry_error(e: SpecEntry) -> Option<Error> {
    match e {
        SpecEntry::Field { type_descriptor, .. } => {
            if desc_ok(spec_dollar_adjust(type_descriptor)) {
                None
            } else {
                Some(Error::UnknownDescriptorToken)
            }
        },
        SpecEntry::Method { raw_param_descriptor, parameters, return_descriptor, .. } => {
            if spec_split_desc(raw_param_descriptor) is None {
                Some(Error::UnknownDescriptorToken)
            } else if spec_split_desc(raw_param_descriptor)->0.len() != parameters.len() {
                Some(Error::AmbiguousArgumentCount)
            } else if !desc_ok(spec_dollar_adjust(return_descriptor)) {
                Some(Error::UnknownDescriptorToken)
            } else {
                None
            }
        },
    }
}

/// The first generation-time fault among the kept members, if any.
pub open spec fn spec_entries_error(es: Seq<(SpecEntry, Seq<Seq<char>>)>) -> Option<Error>
    decreases es.len(),
{
    if es.len() == 0 {
        None
    } else {
        match spec_entry_error(es[0].0) {
            Some(e) => Some(e),
            None => spec_entries_error(es.skip(1)),
        }
    }
}

/// The mathematical value of one parsed mapping unit.
#[verifier::ext_equal]
pub struct SpecClass {
    pub obfuscated: Seq<Seq<char>>,
    pub real_name: Seq<Seq<char>>,
    pub comment: Seq<Seq<char>>,
    pub entries: Seq<(SpecEntry, Seq<Seq<char>>)>,
}

/// A member the code generator can always render.
pub open spec fn entry_wf(e: SpecEntry) -> bool {
    spec_keep(e) && spec_entry_error(e) is None
}

/// A record the code generator can always render: non-empty paths, and every
/// member well formed.
pub open spec fn class_wf(c: SpecClass) -> bool {
    &&& c.obfuscated.len() >= 1
    &&& c.real_name.len() >= 1
    &&& forall|i: int| 0 <= i < c.entries.len() ==> entry_wf(#[trigger] c.entries[i].0)
}

/// The header line decoded: the obfuscated path, and the real path, which
/// defaults to the obfuscated one when the real-path field is missing or
/// empty.  A header without the obfuscated-path field is malformed.
pub open spec fn spec_class_sig(line: Seq<char>) -> Result<(Seq<Seq<char>>, Seq<Seq<char>>), Error> {
    let parts = spec_split3(line);
    if parts.len() == 1 {
        Err(Error::MalformedHeader)
    } else {
        let obf = spec_split_all(parts[1], '/');
        let realtok = if parts.len() == 3 && parts[2].len() > 0 {
            parts[2]
        } else {
            parts[1]
        };
        Ok((obf, spec_split_all(realtok, '/')))
    }
}

/// One mapping unit parsed: the header, then the member lines folded through
/// the comment-attachment state machine, then dummies discarded and every
/// kept member checked against the descriptor grammar.  An error carries the
/// index of the offending line (the line count for faults found only at
/// finalization).
pub open spec fn spec_parse(s: Seq<char>) -> Result<SpecClass, (Error, int)> {
    let ls = spec_lines(s);
    if ls.len() == 0 {
        Err((Error::MalformedHeader, 0))
    } else {
        match spec_class_sig(ls[0]) {
            Err(e) => Err((e, 0)),
            Ok(sig) => match spec_run(ls, 1, spec_init_state()) {
                Err(ei) => Err(ei),
                Ok(st) => {
                    let kept = spec_kept(st.entries);
                    match spec_entries_error(kept) {
                        Some(e) => Err((e, ls.len() as int)),
                        None => Ok(
                            SpecClass {
                                obfuscated: sig.0,
                                real_name: sig.1,
                                comment: match st.class_comment {
                                    None => Seq::empty(),
                                    Some(c) => c,
                                },
                                entries: kept,
                            },
                        ),
                    }
                },
            },
        }
    }
}

/// One parsed mapping unit: the obfuscated and real identifier paths, the
/// class-level comment, and the ordered members with their comments.
#[derive(Debug)]
pub struct Class {
    pub obfuscated: Vec<String>,
    pub real_name: Vec<String>,
    pub comment: Vec<String>,
    pub entries: Vec<(Entry, Vec<String>)>,
}

impl View for Class {
    type V = SpecClass;

    open spec fn view(&self) -> SpecClass {
        SpecClass {
            obfuscated: self.obfuscated.deep_view(),
            real_name: self.real_name.deep_view(),
            comment: self.comment.deep_view(),
            entries: self.entries.deep_view(),
        }
    }
}

/// Every kept member is well formed once the finalization check passes.
pub proof fn lemma_kept_wf(es: Seq<(SpecEntry, Seq<Seq<char>>)>)
    requires
        spec_entries_error(spec_kept(es)) is None,
    ensures
        forall|i: int|
            0 <= i < spec_kept(es).len() ==> entry_wf(#[trigger] spec_kept(es)[i].0),
    decreases es.len(),
{
    let kept = spec_kept(es);
    if es.len() == 0 {
    } else {
        let rest = spec_kept(es.skip(1));
        if spec_keep(es[0].0) {
            assert(kept == seq![es[0]] + rest);
            assert(kept[0] == es[0]);
            assert(spec_entry_error(kept[0].0) is None);
            assert(kept.skip(1) =~= rest);
            lemma_kept_wf(es.skip(1));
            assert forall|i: int| 0 <= i < kept.len() implies entry_wf(#[trigger] kept[i].0) by {
                if i > 0 {
                    assert(kept[i] == rest[i - 1]);
                }
            }
        } else {
            lemma_kept_wf(es.skip(1));
        }
    }
}

/// A parse that succeeds yields a well-formed record.
pub proof fn lemma_parse_wf(s: Seq<char>)
    requires
        spec_parse(s) is Ok,
    ensures
        class_wf(spec_parse(s)->Ok_0),
{
    let ls = spec_lines(s);
    let parts = spec_split3(ls[0]);
    crate::strutil::lemma_split_all_len(parts[1], '/');
    if parts.len() == 3 && parts[2].len() > 0 {
        crate::strutil::lemma_split_all_len(parts[2], '/');
    }
    let st = spec_run(ls, 1, spec_init_state())->Ok_0;
    lemma_kept_wf(st.entries);
}

} // verus!

verus! {

impl Class {
    /// Decode the header line of a mapping unit.
    fn class_sig(line: &str) -> (r: Result<(Vec<String>, Vec<String>), Error>)
        ensures
            spec_class_sig(line@) matches Ok(sig) ==> r matches Ok(p) && p.0.deep_view() == sig.0
                && p.1.deep_view() == sig.1,
            spec_class_sig(line@) matches Err(e) ==> r matches Err(e2) && e2 == e,
    {
        let parts = split3_space(line);
        if parts.len() == 1 {
            Err(Error::MalformedHeader)
        } else {
            let obf = split_all(parts[1].as_str(), '/');
            let use_third = parts.len() == 3 && parts[2].as_str().unicode_len() > 0;
            let rn = if use_third {
                split_all(parts[2].as_str(), '/')
            } else {
                split_all(parts[1].as_str(), '/')
            };
            Ok((obf, rn))
        }
    }

    /// Parse the text of one mapping unit: the first line is the class
    /// header; member lines follow until a `CLASS` line or the end of the
    /// text.  An error carries the index of the offending line within the
    /// unit (the unit's line count, for faults found at finalization).
    #[verifier::loop_isolation(false)]
    pub fn from_str(s: &str) -> (r: Result<Class, (Error, usize)>)
        ensures
            spec_parse(s@) matches Ok(c) ==> r matches Ok(cl) && cl@ == c && class_wf(cl@),
            spec_parse(s@) matches Err(e) ==> r matches Err(e2) && e2.0 == e.0 && e2.1 as int
                == e.1,
    {
        let ls = lines(s);
        let ghost lsv = spec_lines(s@);
        if ls.len() == 0 {
            return Err((Error::MalformedHeader, 0));
        }
        proof {
            assert(ls.deep_view()[0] == ls[0 as int]@);
            assert(lsv.len() == ls.len() as int);
        }
        let sig = match Self::class_sig(ls[0].as_str()) {
            Err(e) => {
                return Err((e, 0));
            },
            Ok(sig) => sig,
        };
        proof {
            assert(spec_class_sig(lsv[0]) is Ok);
        }
        let mut cc: Option<Vec<String>> = None;
        let mut buf: Vec<String> = Vec::new();
        let mut entries: Vec<(Entry, Vec<String>)> = Vec::new();
        let ghost mut st = spec_init_state();
        proof {
            assert(buf.deep_view() =~= st.buf);
            assert(entries.deep_view() =~= st.entries);
        }
        let mut i: usize = 1;
        let mut done = false;
        while i < ls.len() && !done
            invariant
                1 <= i <= ls.len(),
                ls.deep_view() == lsv,
                lsv == spec_lines(s@),
                cc.deep_view() == st.class_comment,
                buf.deep_view() == st.buf,
                entries.deep_view() == st.entries,
                !done ==> spec_run(lsv, 1, spec_init_state()) == spec_run(lsv, i as int, st),
                done ==> spec_run(lsv, 1, spec_init_state()) == Ok::<ParseState, (Error, int)>(st),
            decreases ls.len() - i + (if done { 0int } else { 1int }),
        {
            let ghost st0 = st;
            let t = trim(ls[i].as_str());
            let (word, rest) = split_once_space(t.as_str());
            proof {
                assert(ls.deep_view()[i as int] == ls[i as int]@);
            }
            if str_eq(word.as_str(), "COMMENT") {
                let content = match rest {
                    Some(c) => c,
                    None => String::new(),
                };
                let ghost cv = content@;
                buf.push(content);
                proof {
                    st = ParseState {
                        class_comment: st0.class_comment,
                        buf: st0.buf.push(cv),
                        entries: st0.entries,
                    };
                    assert(buf.deep_view() =~= st.buf);
                    assert(spec_step(st0, lsv[i as int]) == StepResult::Next(st));
                }
                i += 1;
            } else if (str_eq(word.as_str(), "METHOD") || str_eq(word.as_str(), "FIELD"))
                && rest.is_some() {
                let is_method = str_eq(word.as_str(), "METHOD");
                let sig_text = rest.unwrap();
                let e = if is_method {
                    Entry::method(sig_text.as_str())
                } else {
                    Entry::field(sig_text.as_str())
                };
                let ghost ev = e@;
                if cc.is_none() {
                    cc = Some(buf);
                    buf = Vec::new();
                    entries.push((e, Vec::new()));
                    proof {
                        st = ParseState {
                            class_comment: Some(st0.buf),
                            buf: Seq::empty(),
                            entries: st0.entries.push((ev, Seq::empty())),
                        };
                        assert(buf.deep_view() =~= st.buf);
                        assert(entries.deep_view() =~~= st.entries);
                        assert(spec_step(st0, lsv[i as int]) == StepResult::Next(st));
                    }
                } else if entries.len() == 0 {
                    buf = Vec::new();
                    entries.push((e, Vec::new()));
                    proof {
                        st = ParseState {
                            class_comment: st0.class_comment,
                            buf: Seq::empty(),
                            entries: st0.entries.push((ev, Seq::empty())),
                        };
                        assert(buf.deep_view() =~= st.buf);
                        assert(entries.deep_view() =~~= st.entries);
                        assert(spec_step(st0, lsv[i as int]) == StepResult::Next(st));
                    }
                } else {
                    let mut pair = entries.pop().unwrap();
                    let ghost prevv = (pair.0@, pair.1.deep_view());
                    if pair.0.is_empty() {
                        pair.1 = buf;
                        buf = Vec::new();
                        entries.push(pair);
                        entries.push((e, Vec::new()));
                        proof {
                            st = ParseState {
                                class_comment: st0.class_comment,
                                buf: Seq::empty(),
                                entries: st0.entries.update(
                                    st0.entries.len() - 1,
                                    (prevv.0, st0.buf),
                                ).push((ev, Seq::empty())),
                            };
                            assert(buf.deep_view() =~= st.buf);
                            assert(entries.deep_view() =~~= st.entries);
                            assert(spec_step(st0, lsv[i as int]) == StepResult::Next(st));
                        }
                    } else {
                        let res = pair.0.insert_comment(buf);
                        buf = Vec::new();
                        if let Err(er) = res {
                            proof {
                                assert(spec_step(st0, lsv[i as int]) == StepResult::Fail(er));
                            }
                            return Err((er, i));
                        }
                        entries.push(pair);
                        entries.push((e, Vec::new()));
                        proof {
                            let e1 = spec_insert_comment(prevv.0, st0.buf)->Ok_0;
                            st = ParseState {
                                class_comment: st0.class_comment,
                                buf: Seq::empty(),
                                entries: st0.entries.update(
                                    st0.entries.len() - 1,
                                    (e1, prevv.1),
                                ).push((ev, Seq::empty())),
                            };
                            assert(buf.deep_view() =~= st.buf);
                            assert(entries.deep_view() =~~= st.entries);
                            assert(spec_step(st0, lsv[i as int]) == StepResult::Next(st));
                        }
                    }
                }
                i += 1;
            } else if str_eq(word.as_str(), "ARG") && rest.is_some() {
                let sig_text = rest.unwrap();
                if entries.len() == 0 {
                    proof {
                        assert(spec_step(st0, lsv[i as int]) == StepResult::Fail(
                            Error::ArgWithoutMethod,
                        ));
                    }
                    return Err((Error::ArgWithoutMethod, i));
                }
                let mut pair = entries.pop().unwrap();
                let ghost prevv = (pair.0@, pair.1.deep_view());
                if pair.0.is_empty() {
                    pair.1 = buf;
                    buf = Vec::new();
                    let res = pair.0.push_arg(sig_text);
                    if let Err(er) = res {
                        proof {
                            assert(spec_step(st0, lsv[i as int]) == StepResult::Fail(er));
                        }
                        return Err((er, i));
                    }
                    entries.push(pair);
                    proof {
                        let e2 = spec_push_arg(prevv.0, spec_split2(spec_trim(lsv[i as int])).1->0)->Ok_0;
                        st = ParseState {
                            class_comment: st0.class_comment,
                            buf: Seq::empty(),
                            entries: st0.entries.update(st0.entries.len() - 1, (e2, st0.buf)),
                        };
                        assert(buf.deep_view() =~= st.buf);
                        assert(entries.deep_view() =~~= st.entries);
                        assert(spec_step(st0, lsv[i as int]) == StepResult::Next(st));
                    }
                } else {
                    let res = pair.0.insert_comment(buf);
                    buf = Vec::new();
                    if let Err(er) = res {
                        proof {
                            assert(spec_step(st0, lsv[i as int]) == StepResult::Fail(er));
                        }
                        return Err((er, i));
                    }
                    let res2 = pair.0.push_arg(sig_text);
                    if let Err(er) = res2 {
                        proof {
                            assert(spec_step(st0, lsv[i as int]) == StepResult::Fail(er));
                        }
                        return Err((er, i));
                    }
                    entries.push(pair);
                    proof {
                        let e1 = spec_insert_comment(prevv.0, st0.buf)->Ok_0;
                        let e2 = spec_push_arg(e1, spec_split2(spec_trim(lsv[i as int])).1->0)->Ok_0;
                        st = ParseState {
                            class_comment: st0.class_comment,
                            buf: Seq::empty(),
                            entries: st0.entries.update(st0.entries.len() - 1, (e2, prevv.1)),
                        };
                        assert(buf.deep_view() =~= st.buf);
                        assert(entries.deep_view() =~~= st.entries);
                        assert(spec_step(st0, lsv[i as int]) == StepResult::Next(st));
                    }
                }
                i += 1;
            } else if str_eq(word.as_str(), "CLASS") && rest.is_some() {
                proof {
                    assert(spec_step(st0, lsv[i as int]) == StepResult::Stop);
                }
                done = true;
            } else {
                proof {
                    assert(spec_step(st0, lsv[i as int]) == StepResult::Fail(
                        Error::UnrecognizedLineVariant,
                    ));
                }
                return Err((Error::UnrecognizedLineVariant, i));
            }
        }
        proof {
            if !done {
                assert(spec_run(lsv, i as int, st) == Ok::<ParseState, (Error, int)>(st));
            }
        }
        // finalization: discard dummy members, keep the rest in order
        let ghost orig = entries.deep_view();
        let mut kept: Vec<(Entry, Vec<String>)> = Vec::new();
        proof {
            assert(kept.deep_view() + spec_kept(orig) =~= spec_kept(orig));
        }
        while entries.len() > 0
            invariant
                spec_kept(orig) =~= kept.deep_view() + spec_kept(entries.deep_view()),
            decreases entries.len(),
        {
            let ghost rem = entries.deep_view();
            let pair = entries.remove(0);
            let keep = Entry::not_dummy(&pair) && match &pair.0 {
                Entry::Field { .. } => true,
                Entry::Method { parameters, .. } => parameters.len() > 0,
            };
            proof {
                assert(entries.deep_view() =~= rem.skip(1));
                assert(keep == spec_keep(rem[0].0));
            }
            if keep {
                let ghost keptv = kept.deep_view();
                let ghost pv = (pair.0@, pair.1.deep_view());
                kept.push(pair);
                proof {
                    assert(kept.deep_view() =~~= keptv.push(pv));
                    assert(rem[0] == pv);
                    assert(spec_kept(rem) =~= seq![pv] + spec_kept(rem.skip(1)));
                    assert(keptv.push(pv) + spec_kept(rem.skip(1)) =~= keptv + spec_kept(rem));
                }
            }
        }
        proof {
            assert(spec_kept(entries.deep_view()) =~= Seq::<(SpecEntry, Seq<Seq<char>>)>::empty());
            assert(kept.deep_view() =~= spec_kept(orig));
        }
        // finalization: every kept member must decode
        let ghost keptv = kept.deep_view();
        let mut j: usize = 0;
        proof {
            assert(keptv.skip(0) =~= keptv);
        }
        while j < kept.len()
            invariant
                0 <= j <= kept.len(),
                keptv == kept.deep_view(),
                lsv == spec_lines(s@),
                ls.len() == lsv.len(),
                spec_entries_error(keptv) == spec_entries_error(keptv.skip(j as int)),
            decreases kept.len() - j,
        {
            let ghost rem = keptv.skip(j as int);
            proof {
                assert(rem[0] == keptv[j as int]);
                assert(rem.skip(1) =~= keptv.skip(j + 1));
            }
            match &kept[j].0 {
                Entry::Field { type_descriptor, .. } => {
                    let ok = if contains_char(type_descriptor.as_str(), '$') {
                        crate::descriptor::desc_ok_exec("LObject")
                    } else {
                        crate::descriptor::desc_ok_exec(type_descriptor.as_str())
                    };
                    if !ok {
                        return Err((Error::UnknownDescriptorToken, ls.len()));
                    }
                },
                Entry::Method { raw_param_descriptor, parameters, return_descriptor, .. } => {
                    match crate::descriptor::split_descriptor(raw_param_descriptor.as_str()) {
                        Err(e) => {
                            return Err((e, ls.len()));
                        },
                        Ok(toks) => {
                            if toks.len() != parameters.len() {
                                return Err((Error::AmbiguousArgumentCount, ls.len()));
                            }
                        },
                    }
                    let ok = if contains_char(return_descriptor.as_str(), '$') {
                        crate::descriptor::desc_ok_exec("LObject")
                    } else {
                        crate::descriptor::desc_ok_exec(return_descriptor.as_str())
                    };
                    if !ok {
                        return Err((Error::UnknownDescriptorToken, ls.len()));
                    }
                },
            }
            proof {
                assert(spec_entry_error(keptv[j as int].0) is None);
            }
            j += 1;
        }
        proof {
            assert(keptv.skip(kept.len() as int) =~= Seq::<(SpecEntry, Seq<Seq<char>>)>::empty());
        }
        let comment = match cc {
            None => Vec::new(),
            Some(c) => c,
        };
        let out = Class { obfuscated: sig.0, real_name: sig.1, comment, entries: kept };
        proof {
            assert(out@ =~~= spec_parse(s@)->Ok_0);
            lemma_parse_wf(s@);
        }
        Ok(out)
    }
}

} // verus!

verus! {

impl DeepView for Class {
    type V = SpecClass;

    open spec fn deep_view(&self) -> SpecClass {
        self.view()
    }
}

} // verus!

verus! {

/// The real-path prefix that marks a class as one to wrap.
pub open spec fn spec_target_namespace() -> Seq<Seq<char>> {
    seq!["net"@, "minecraft"@]
}

/// The target namespace as runtime path segments.
pub fn target_namespace() -> (r: Vec<String>)
    ensures
        r.deep_view() == spec_target_namespace(),
{
    let mut v: Vec<String> = Vec::new();
    v.push(String::from_str("net"));
    v.push(String::from_str("minecraft"));
    proof {
        assert(v.deep_view() =~~= spec_target_namespace());
    }
    v
}

/// The display name a descriptor resolves to during generation.
pub open spec fn spec_resolved_name(
    t: Seq<char>,
    m: Map<Seq<Seq<char>>, Seq<Seq<char>>>,
    package: Seq<char>,
    remap: Seq<(Seq<char>, Seq<char>)>,
    wrap: bool,
) -> Seq<char> {
    crate::descriptor::spec_resolve(t, m, spec_target_namespace(), package, remap, wrap)->0
}

/// The two generated accessor lines of a field: a getter and a setter, which
/// wrap and unwrap the value when its resolved type lies in the generated
/// package.
pub open spec fn spec_field_text(
    label: Seq<char>,
    ty: Seq<char>,
    m: Map<Seq<Seq<char>>, Seq<Seq<char>>>,
    package: Seq<char>,
    remap: Seq<(Seq<char>, Seq<char>)>,
) -> Seq<char> {
    let cls = spec_resolved_name(spec_dollar_adjust(ty), m, package, remap, true);
    if crate::strutil::spec_starts_at(cls, package, 0) {
        "public "@ + cls + " "@ + label + "() { return new "@ + cls + "(wrapperContained."@
            + label + "); }\npublic void "@ + label + "("@ + cls
            + " value) { wrapperContained."@ + label + " = value.wrapperContained; }"@
    } else {
        "public "@ + cls + " "@ + label + "() { return wrapperContained."@ + label
            + "; }\npublic void "@ + label + "("@ + cls + " value) { wrapperContained."@ + label
            + " = value; }"@
    }
}

/// The comma-joined parameter declarations, one trailing comma per
/// parameter, from position `i` on.
pub open spec fn spec_params_text(
    toks: Seq<Seq<char>>,
    params: Seq<(Seq<char>, Seq<Seq<char>>)>,
    m: Map<Seq<Seq<char>>, Seq<Seq<char>>>,
    package: Seq<char>,
    remap: Seq<(Seq<char>, Seq<char>)>,
    i: int,
) -> Seq<char>
    decreases toks.len() - i,
{
    if i < 0 || i >= toks.len() {
        Seq::empty()
    } else {
        spec_resolved_name(toks[i], m, package, remap, true) + " "@ + params[i].0 + ","@
            + spec_params_text(toks, params, m, package, remap, i + 1)
    }
}

/// The comma-joined forwarded arguments from position `i` on: an argument
/// whose resolved type lies in the generated package is unwrapped through
/// its own `wrapperContained` field.
pub open spec fn spec_args_text(
    toks: Seq<Seq<char>>,
    params: Seq<(Seq<char>, Seq<Seq<char>>)>,
    m: Map<Seq<Seq<char>>, Seq<Seq<char>>>,
    package: Seq<char>,
    remap: Seq<(Seq<char>, Seq<char>)>,
    i: int,
) -> Seq<char>
    decreases toks.len() - i,
{
    if i < 0 || i >= toks.len() {
        Seq::empty()
    } else {
        let cls = spec_resolved_name(toks[i], m, package, remap, true);
        (if crate::strutil::spec_starts_at(cls, package, 0) {
            params[i].0 + ".wrapperContained,"@
        } else {
            params[i].0 + ","@
        }) + spec_args_text(toks, params, m, package, remap, i + 1)
    }
}

/// The generated text of a method member.  The constructor marker `<init>`
/// emits the wrapper's constructor, which builds the original real type from
/// the (possibly unwrapped) arguments; any other method delegates, wrapping
/// a result whose resolved type lies in the generated package.
pub open spec fn spec_method_text(
    label: Seq<char>,
    raw: Seq<char>,
    params: Seq<(Seq<char>, Seq<Seq<char>>)>,
    ret: Seq<char>,
    m: Map<Seq<Seq<char>>, Seq<Seq<char>>>,
    package: Seq<char>,
    remap: Seq<(Seq<char>, Seq<char>)>,
    original_name: Seq<char>,
    remapped_name: Seq<char>,
) -> Seq<char> {
    let toks = spec_split_desc(raw)->0;
    let cls = spec_resolved_name(spec_dollar_adjust(ret), m, package, remap, true);
    let ps = spec_trim_char_end(spec_params_text(toks, params, m, package, remap, 0), ',');
    let args = spec_trim_char_end(spec_args_text(toks, params, m, package, remap, 0), ',');
    if label == "<init>"@ {
        "public "@ + remapped_name + "("@ + ps + ") { this.wrapperContained = new "@
            + original_name + "("@ + args + "); }"@
    } else {
        let body = if cls == "void"@ {
            "wrapperContained."@ + label + "("@ + args + ");"@
        } else if crate::strutil::spec_starts_at(cls, package, 0) {
            "return new "@ + cls + "(wrapperContained."@ + label + "("@ + args + "));"@
        } else {
            "return wrapperContained."@ + label + "("@ + args + ");"@
        };
        "public "@ + cls + " "@ + label + "("@ + ps + ") { "@ + body + " }"@
    }
}

/// The generated text of one member.
pub open spec fn spec_entry_text(
    e: SpecEntry,
    m: Map<Seq<Seq<char>>, Seq<Seq<char>>>,
    package: Seq<char>,
    remap: Seq<(Seq<char>, Seq<char>)>,
    original_name: Seq<char>,
    remapped_name: Seq<char>,
) -> Seq<char> {
    match e {
        SpecEntry::Field { label, type_descriptor } => spec_field_text(
            label,
            type_descriptor,
            m,
            package,
            remap,
        ),
        SpecEntry::Method { label, raw_param_descriptor, parameters, return_descriptor } => {
            spec_method_text(
                label,
                raw_param_descriptor,
                parameters,
                return_descriptor,
                m,
                package,
                remap,
                original_name,
                remapped_name,
            )
        },
    }
}

} // verus!

verus! {

impl Entry {
    /// Render one member into its generated Java text.
    #[verifier::rlimit(60)]
    #[verifier::loop_isolation(false)]
    fn render(
        &self,
        index: &crate::index::Index,
        package: &str,
        remap: &Vec<(String, String)>,
        original_name: &str,
        remapped_name: &str,
    ) -> (r: String)
        requires
            entry_wf(self@),
        ensures
            r@ == spec_entry_text(
                self@,
                crate::index::spec_real_map(index@),
                package@,
                remap.deep_view(),
                original_name@,
                remapped_name@,
            ),
    {
        let ghost m = crate::index::spec_real_map(index@);
        let tns = target_namespace();
        match self {
            Entry::Field { label, type_descriptor } => {
                let adjusted: String = if contains_char(type_descriptor.as_str(), '$') {
                    String::from_str("LObject")
                } else {
                    type_descriptor.clone()
                };
                proof {
                    assert(adjusted@ == spec_dollar_adjust(type_descriptor@));
                    crate::descriptor::lemma_resolve_some(
                        adjusted@,
                        m,
                        spec_target_namespace(),
                        package@,
                        remap.deep_view(),
                        true,
                    );
                }
                let cls = match crate::descriptor::resolve_type_name(
                    adjusted.as_str(),
                    index,
                    &tns,
                    package,
                    remap,
                    true,
                ) {
                    Ok(c) => c,
                    Err(_) => unreached(),
                };
                let wrapped = crate::strutil::starts_with(cls.as_str(), package);
                let mut out = String::new();
                out.append("public ");
                out.append(cls.as_str());
                out.append(" ");
                out.append(label.as_str());
                if wrapped {
                    out.append("() { return new ");
                    out.append(cls.as_str());
                    out.append("(wrapperContained.");
                    out.append(label.as_str());
                    out.append("); }\npublic void ");
                    out.append(label.as_str());
                    out.append("(");
                    out.append(cls.as_str());
                    out.append(" value) { wrapperContained.");
                    out.append(label.as_str());
                    out.append(" = value.wrapperContained; }");
                } else {
                    out.append("() { return wrapperContained.");
                    out.append(label.as_str());
                    out.append("; }\npublic void ");
                    out.append(label.as_str());
                    out.append("(");
                    out.append(cls.as_str());
                    out.append(" value) { wrapperContained.");
                    out.append(label.as_str());
                    out.append(" = value; }");
                }
                proof {
                    assert(out@ =~= spec_field_text(
                        label@,
                        type_descriptor@,
                        m,
                        package@,
                        remap.deep_view(),
                    ));
                }
                out
            },
            Entry::Method { label, raw_param_descriptor, parameters, return_descriptor } => {
                let ghost tv = spec_split_desc(raw_param_descriptor@)->0;
                let ghost pv = parameters.deep_view();
                proof {
                    crate::descriptor::lemma_split_tokens_ok(raw_param_descriptor@);
                }
                let toks = match crate::descriptor::split_descriptor(raw_param_descriptor.as_str()) {
                    Ok(t) => t,
                    Err(_) => unreached(),
                };
                let adjusted: String = if contains_char(return_descriptor.as_str(), '$') {
                    String::from_str("LObject")
                } else {
                    return_descriptor.clone()
                };
                proof {
                    assert(adjusted@ == spec_dollar_adjust(return_descriptor@));
                    crate::descriptor::lemma_resolve_some(
                        adjusted@,
                        m,
                        spec_target_namespace(),
                        package@,
                        remap.deep_view(),
                        true,
                    );
                }
                let cls = match crate::descriptor::resolve_type_name(
                    adjusted.as_str(),
                    index,
                    &tns,
                    package,
                    remap,
                    true,
                ) {
                    Ok(c) => c,
                    Err(_) => unreached(),
                };
                let mut ps_acc = String::new();
                let mut args_acc = String::new();
                let mut i: usize = 0;
                proof {
                    assert(toks.deep_view() == tv);
                    assert(tv.len() == pv.len());
                }
                while i < toks.len()
                    invariant
                        0 <= i <= toks.len(),
                        toks.deep_view() == tv,
                        pv == parameters.deep_view(),
                        tv.len() == pv.len(),
                        toks.len() == tv.len(),
                        spec_params_text(tv, pv, m, package@, remap.deep_view(), 0) =~= ps_acc@
                            + spec_params_text(tv, pv, m, package@, remap.deep_view(), i as int),
                        spec_args_text(tv, pv, m, package@, remap.deep_view(), 0) =~= args_acc@
                            + spec_args_text(tv, pv, m, package@, remap.deep_view(), i as int),
                        forall|j: int|
                            0 <= j < tv.len() ==> crate::descriptor::desc_ok(#[trigger] tv[j]),
                    decreases toks.len() - i,
                {
                    proof {
                        assert(toks.deep_view()[i as int] == toks[i as int]@);
                        crate::descriptor::lemma_resolve_some(
                            tv[i as int],
                            m,
                            spec_target_namespace(),
                            package@,
                            remap.deep_view(),
                            true,
                        );
                    }
                    let cls_i = match crate::descriptor::resolve_type_name(
                        toks[i].as_str(),
                        index,
                        &tns,
                        package,
                        remap,
                        true,
                    ) {
                        Ok(c) => c,
                        Err(_) => unreached(),
                    };
                    proof {
                        assert(parameters.deep_view()[i as int] == (
                            parameters[i as int].0@,
                            parameters[i as int].1.deep_view(),
                        ));
                    }
                    let ghost ops = ps_acc@;
                    let ghost oas = args_acc@;
                    ps_acc.append(cls_i.as_str());
                    ps_acc.append(" ");
                    ps_acc.append(parameters[i].0.as_str());
                    ps_acc.append(",");
                    if crate::strutil::starts_with(cls_i.as_str(), package) {
                        args_acc.append(parameters[i].0.as_str());
                        args_acc.append(".wrapperContained,");
                    } else {
                        args_acc.append(parameters[i].0.as_str());
                        args_acc.append(",");
                    }
                    proof {
                        let riv = spec_resolved_name(
                            tv[i as int],
                            m,
                            package@,
                            remap.deep_view(),
                            true,
                        );
                        assert(cls_i@ == riv);
                        assert(spec_params_text(tv, pv, m, package@, remap.deep_view(), i as int)
                            =~= riv + " "@ + pv[i as int].0 + ","@ + spec_params_text(
                            tv,
                            pv,
                            m,
                            package@,
                            remap.deep_view(),
                            i + 1,
                        ));
                        assert(ps_acc@ =~= ops + (riv + " "@ + pv[i as int].0 + ","@));
                        assert(spec_args_text(tv, pv, m, package@, remap.deep_view(), i as int)
                            =~= (if crate::strutil::spec_starts_at(riv, package@, 0) {
                            pv[i as int].0 + ".wrapperContained,"@
                        } else {
                            pv[i as int].0 + ","@
                        }) + spec_args_text(tv, pv, m, package@, remap.deep_view(), i + 1));
                        if crate::strutil::spec_starts_at(riv, package@, 0) {
                            assert(args_acc@ =~= oas + (pv[i as int].0 + ".wrapperContained,"@));
                        } else {
                            assert(args_acc@ =~= oas + (pv[i as int].0 + ","@));
                        }
                    }
                    i += 1;
                }
                let ps = trim_char_end(ps_acc.as_str(), ',');
                let args = trim_char_end(args_acc.as_str(), ',');
                let mut out = String::new();
                if str_eq(label.as_str(), "<init>") {
                    out.append("public ");
                    out.append(remapped_name);
                    out.append("(");
                    out.append(ps.as_str());
                    out.append(") { this.wrapperContained = new ");
                    out.append(original_name);
                    out.append("(");
                    out.append(args.as_str());
                    out.append("); }");
                } else {
                    out.append("public ");
                    out.append(cls.as_str());
                    out.append(" ");
                    out.append(label.as_str());
                    out.append("(");
                    out.append(ps.as_str());
                    out.append(") { ");
                    if str_eq(cls.as_str(), "void") {
                        out.append("wrapperContained.");
                        out.append(label.as_str());
                        out.append("(");
                        out.append(args.as_str());
                        out.append(");");
                    } else if crate::strutil::starts_with(cls.as_str(), package) {
                        out.append("return new ");
                        out.append(cls.as_str());
                        out.append("(wrapperContained.");
                        out.append(label.as_str());
                        out.append("(");
                        out.append(args.as_str());
                        out.append("));");
                    } else {
                        out.append("return wrapperContained.");
                        out.append(label.as_str());
                        out.append("(");
                        out.append(args.as_str());
                        out.append(");");
                    }
                    out.append(" }");
                }
                proof {
                    assert(out@ =~= spec_method_text(
                        label@,
                        raw_param_descriptor@,
                        pv,
                        return_descriptor@,
                        m,
                        package@,
                        remap.deep_view(),
                        original_name@,
                        remapped_name@,
                    ));
                }
                out
            },
        }
    }

    /// Render one member into its generated Java text, consuming it.
    pub fn to_string(
        self,
        index: &crate::index::Index,
        package: &str,
        remap: &Vec<(String, String)>,
        original_name: &str,
        remapped_name: &str,
    ) -> (r: String)
        requires
            entry_wf(self@),
        ensures
            r@ == spec_entry_text(
                self@,
                crate::index::spec_real_map(index@),
                package@,
                remap.deep_view(),
                original_name@,
                remapped_name@,
            ),
    {
        self.render(index, package, remap, original_name, remapped_name)
    }
}

} // verus!

verus! {

/// The generated member lines from position `i` on, each followed by a
/// newline.
pub open spec fn spec_entries_text(
    entries: Seq<(SpecEntry, Seq<Seq<char>>)>,
    m: Map<Seq<Seq<char>>, Seq<Seq<char>>>,
    package: Seq<char>,
    remap: Seq<(Seq<char>, Seq<char>)>,
    original_name: Seq<char>,
    remapped_name: Seq<char>,
    i: int,
) -> Seq<char>
    decreases entries.len() - i,
{
    if i < 0 || i >= entries.len() {
        Seq::empty()
    } else {
        spec_entry_text(entries[i].0, m, package, remap, original_name, remapped_name) + "\n"@
            + spec_entries_text(entries, m, package, remap, original_name, remapped_name, i + 1)
    }
}

/// The full generated compilation unit of one record: the repackaged package
/// declaration, the wrapper class holding the original real type, its
/// constructor, and every member's generated lines.
pub open spec fn spec_class_text(
    c: SpecClass,
    m: Map<Seq<Seq<char>>, Seq<Seq<char>>>,
    package: Seq<char>,
    remap: Seq<(Seq<char>, Seq<char>)>,
    path: Seq<char>,
) -> Seq<char> {
    let package_name = spec_join(c.real_name.take(c.real_name.len() - 1), "."@);
    let class_name = c.real_name.last();
    let original_name = spec_join(c.real_name, "."@);
    let remapped = spec_remap(package + "."@ + package_name, remap);
    let entries_text = spec_entries_text(c.entries, m, package, remap, original_name, path, 0);
    "package "@ + remapped + ";\npublic class "@ + class_name + " { public "@ + original_name
        + " wrapperContained; public "@ + class_name + "("@ + original_name
        + " wrapperContained) { this.wrapperContained = wrapperContained; }\n\n"@ + entries_text
        + "\n}"@
}

/// The output file's path relative to the output root: the repackaged dotted
/// path with slashes for dots and a `.java` extension.
pub open spec fn spec_output_path(
    c: SpecClass,
    package: Seq<char>,
    remap: Seq<(Seq<char>, Seq<char>)>,
) -> Seq<char> {
    spec_replace(
        spec_remap(package + "."@ + spec_join(c.real_name, "."@), remap),
        "."@,
        "/"@,
    ) + ".java"@
}

impl Class {
    /// Render this record into the full text of its wrapper source file.
    /// `path` is the name the wrapper class itself is emitted under.
    #[verifier::loop_isolation(false)]
    pub fn to_string(
        &self,
        index: &crate::index::Index,
        package: &str,
        remap: &Vec<(String, String)>,
        path: &str,
    ) -> (r: String)
        requires
            class_wf(self@),
        ensures
            r@ == spec_class_text(
                self@,
                crate::index::spec_real_map(index@),
                package@,
                remap.deep_view(),
                path@,
            ),
    {
        let ghost m = crate::index::spec_real_map(index@);
        let package_name = crate::strutil::join_range(
            &self.real_name,
            0,
            self.real_name.len() - 1,
            ".",
        );
        let original_name = crate::strutil::join_all(&self.real_name, ".");
        let class_name = &self.real_name[self.real_name.len() - 1];
        proof {
            assert(self.real_name.deep_view()[self.real_name.len() - 1]
                == self.real_name[self.real_name.len() - 1]@);
            assert(self.real_name.deep_view().subrange(0, self.real_name.len() - 1)
                =~= self.real_name.deep_view().take(self.real_name.deep_view().len() - 1));
        }
        let mut pre = String::from_str(package);
        pre.append(".");
        pre.append(package_name.as_str());
        let remapped = crate::strutil::apply_remap(pre.as_str(), remap);
        let mut entries_text = String::new();
        let mut k: usize = 0;
        while k < self.entries.len()
            invariant
                0 <= k <= self.entries.len(),
                spec_entries_text(
                    self@.entries,
                    m,
                    package@,
                    remap.deep_view(),
                    original_name@,
                    path@,
                    0,
                ) =~= entries_text@ + spec_entries_text(
                    self@.entries,
                    m,
                    package@,
                    remap.deep_view(),
                    original_name@,
                    path@,
                    k as int,
                ),
            decreases self.entries.len() - k,
        {
            proof {
                assert(self.entries.deep_view()[k as int] == (
                    self.entries[k as int].0.deep_view(),
                    self.entries[k as int].1.deep_view(),
                ));
            }
            let line = self.entries[k].0.render(
                index,
                package,
                remap,
                original_name.as_str(),
                path,
            );
            let ghost oe = entries_text@;
            entries_text.append(line.as_str());
            entries_text.append("\n");
            proof {
                assert(entries_text@ =~= oe + (line@ + "\n"@));
            }
            k += 1;
        }
        let mut out = String::new();
        out.append("package ");
        out.append(remapped.as_str());
        out.append(";\npublic class ");
        out.append(class_name.as_str());
        out.append(" { public ");
        out.append(original_name.as_str());
        out.append(" wrapperContained; public ");
        out.append(class_name.as_str());
        out.append("(");
        out.append(original_name.as_str());
        out.append(" wrapperContained) { this.wrapperContained = wrapperContained; }\n\n");
        out.append(entries_text.as_str());
        out.append("\n}");
        proof {
            assert(out@ =~= spec_class_text(
                self@,
                m,
                package@,
                remap.deep_view(),
                path@,
            ));
        }
        out
    }

    /// The generated file's path relative to the output root.
    pub fn output_path(&self, package: &str, remap: &Vec<(String, String)>) -> (r: String)
        ensures
            r@ == spec_output_path(self@, package@, remap.deep_view()),
    {
        let mut pre = String::from_str(package);
        pre.append(".");
        let joined = crate::strutil::join_all(&self.real_name, ".");
        pre.append(joined.as_str());
        let remapped = crate::strutil::apply_remap(pre.as_str(), remap);
        let mut out = crate::strutil::replace_str(remapped.as_str(), ".", "/");
        out.append(".java");
        out
    }
}

} // verus!

verus! {

/// Parsing is deterministic and order-preserving: one and the same
/// mapping-unit text always yields one and the same member and comment
/// structure, so re-parsing a text twice gives identical records.
pub proof fn lemma_parse_deterministic(s1: Seq<char>, s2: Seq<char>)
    requires
        s1 == s2,
    ensures
        spec_parse(s1) == spec_parse(s2),
{
}

/// No member with an empty label survives finalization: every entry of a
/// parsed record carries a non-empty label.
pub proof fn lemma_no_empty_labels(s: Seq<char>)
    requires
        spec_parse(s) is Ok,
    ensures
        forall|i: int|
            0 <= i < spec_parse(s)->Ok_0.entries.len() ==> entry_label(
                #[trigger] spec_parse(s)->Ok_0.entries[i].0,
            ).len() > 0,
{
    lemma_parse_wf(s);
    let c = spec_parse(s)->Ok_0;
    assert forall|i: int| 0 <= i < c.entries.len() implies entry_label(
        #[trigger] c.entries[i].0,
    ).len() > 0 by {
        assert(entry_wf(c.entries[i].0));
    }
}

} // verus!
