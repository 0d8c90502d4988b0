//! Reading a whole save file: the builders for segments, attempt histories,
//! metadata and the run, each following the grammar of the document's
//! version.

use vstd::prelude::*;
use crate::model::{
    Attempt, AtomicDateTime, Comparison, DateTime, Metadata, ParseError, Run, Segment, Time,
    TimeSpan, Variable, comparison_names, comparisons_view, history_insert, history_keys_unique, history_set,
    names_unique, SegmentModel, empty_segment, string_views, MetadataModel, RunModel, empty_run,
    variables_view, segment_models,
};
use crate::parser::{
    attribute, attribute_value, name_is, read_image, read_legacy_time, read_span, read_span_opt, read_text,
    read_time, required_attribute, skip_element, required_attr_spec, time_spec, legacy_time_spec,
    skip_spec, span_opt_spec, with_real, with_game, named, attr_value_spec, text_spec,
    image_read_spec, attr_spec, span_spec,
};
use crate::text::{
    bool_value, chars_of, parse_bool, signed_in, signed_value, unsigned_in, unsigned_value,
};
use crate::version::{Version, parse_version, version_ge, version_of};
use crate::xml::{Attribute, Token, tokenize, tokens_of, well_ended};

verus! {

impl Run {
    /// Every segment keeps its comparison names and history indices unique,
    /// and no custom comparison name is listed twice.
    pub open spec fn wf(&self) -> bool {
        &&& forall|i: int| 0 <= i < self.segments@.len() ==> (#[trigger] self.segments@[i]).wf()
        &&& names_unique(string_views(self.custom_comparisons@))
        &&& registered(self.segments@, self.custom_comparisons@)
    }
}

/// Whether segment `s` has a comparison named `m`.
pub open spec fn seg_has(s: Segment, m: Seq<char>) -> bool {
    comparison_names(s.comparisons@).contains(m)
}

/// The custom comparison names are exactly the comparison names that the
/// segments populate.
pub open spec fn registered(segs: Seq<Segment>, custom: Seq<String>) -> bool {
    &&& forall|i: int, m: Seq<char>|
        0 <= i < segs.len() && #[trigger] seg_has(segs[i], m) ==> string_views(custom).contains(m)
    &&& forall|m: Seq<char>|
        #[trigger] string_views(custom).contains(m) ==> exists|i: int|
            0 <= i < segs.len() && seg_has(segs[i], m)
}

/// `names` with `n` added at the end, unless it is there.
pub open spec fn name_register(names: Seq<Seq<char>>, n: Seq<char>) -> Seq<Seq<char>> {
    if names.contains(n) {
        names
    } else {
        names.push(n)
    }
}

/// Adds `name` to `names` unless it is there.
fn register_name(names: &mut Vec<String>, name: &String)
    requires
        names_unique(string_views(old(names)@)),
    ensures
        names_unique(string_views(final(names)@)),
        string_views(final(names)@) == name_register(string_views(old(names)@), name@),
        forall|m: Seq<char>|
            #[trigger] string_views(final(names)@).contains(m) <==> (string_views(
                old(names)@,
            ).contains(m) || m == name@),
{
    let mut i: usize = 0;
    while i < names.len()
        invariant
            names@ == old(names)@,
            names_unique(string_views(old(names)@)),
            i <= names@.len(),
            forall|j: int| 0 <= j < i ==> names@[j]@ != name@,
        decreases names.len() - i,
    {
        if names[i] == *name {
            assert(string_views(names@)[i as int] == name@);
            assert(string_views(names@).contains(name@));
            return;
        }
        i = i + 1;
    }
    assert(!string_views(old(names)@).contains(name@)) by {
        if string_views(old(names)@).contains(name@) {
            let k = choose|k: int|
                0 <= k < string_views(old(names)@).len() && string_views(old(names)@)[k]
                    == name@;
            assert(names@[k]@ == name@);
        }
    }
    names.push(name.clone());
    assert(string_views(names@) =~= string_views(old(names)@).push(name@));
    assert forall|m: Seq<char>| #[trigger] string_views(names@).contains(m) <==> (string_views(
        old(names)@,
    ).contains(m) || m == name@) by {
        if string_views(old(names)@).contains(m) {
            let k = choose|k: int|
                0 <= k < string_views(old(names)@).len() && string_views(old(names)@)[k] == m;
            assert(string_views(names@)[k] == m);
        }
        if m == name@ {
            assert(string_views(names@)[names@.len() - 1] == m);
        }
        if string_views(names@).contains(m) {
            let k = choose|k: int| 0 <= k < string_views(names@).len() && string_views(names@)[k] == m;
            if k < old(names)@.len() {
                assert(string_views(old(names)@)[k] == m);
            }
        }
    }
    assert forall|a: int, b: int| 0 <= a < b < string_views(names@).len() implies string_views(
        names@,
    )[a] != string_views(names@)[b] by {
        if b < old(names)@.len() {
            assert(string_views(old(names)@)[a] != string_views(old(names)@)[b]);
        }
    }
}

/// `cs` with the comparison `n` set to `t`, replacing what `n` held.
pub open spec fn comparison_insert(cs: Seq<(Seq<char>, Time)>, n: Seq<char>, t: Time) -> Seq<
    (Seq<char>, Time),
> {
    if exists|i: int| 0 <= i < cs.len() && cs[i].0 == n {
        let i = choose|i: int| 0 <= i < cs.len() && cs[i].0 == n;
        cs.update(i, (n, t))
    } else {
        cs.push((n, t))
    }
}

/// Stores `t` as the comparison time named `name`, replacing what that name
/// held.
fn set_comparison(cs: &mut Vec<Comparison>, name: &String, t: Time)
    requires
        names_unique(comparison_names(old(cs)@)),
    ensures
        names_unique(comparison_names(final(cs)@)),
        comparisons_view(final(cs)@) == comparison_insert(comparisons_view(old(cs)@), name@, t),
        forall|m: Seq<char>|
            #[trigger] comparison_names(final(cs)@).contains(m) <==> (comparison_names(
                old(cs)@,
            ).contains(m) || m == name@),
{
    let ghost v = comparisons_view(cs@);
    let mut i: usize = 0;
    while i < cs.len()
        invariant
            cs@ == old(cs)@,
            v == comparisons_view(cs@),
            names_unique(comparison_names(old(cs)@)),
            i <= cs@.len(),
            forall|j: int| 0 <= j < i ==> cs@[j].name@ != name@,
        decreases cs.len() - i,
    {
        if cs[i].name == *name {
            proof {
                assert(v[i as int].0 == name@);
                let c = choose|j: int| 0 <= j < v.len() && v[j].0 == name@;
                if c != i {
                    assert(comparison_names(cs@)[c] == v[c].0);
                    assert(comparison_names(cs@)[i as int] == v[i as int].0);
                }
                assert(c == i);
            }
            let ghost before = cs@;
            cs.set(i, Comparison { name: name.clone(), time: t });
            assert(comparison_names(cs@) =~= comparison_names(before));
            assert(comparison_names(before)[i as int] == name@);
            assert(comparisons_view(cs@) =~= v.update(i as int, (name@, t)));
            return;
        }
        i = i + 1;
    }
    assert(!(exists|j: int| 0 <= j < v.len() && v[j].0 == name@));
    cs.push(Comparison { name: name.clone(), time: t });
    assert(comparisons_view(cs@) =~= v.push((name@, t)));
    assert(comparison_names(cs@) =~= comparison_names(old(cs)@).push(name@));
    assert forall|m: Seq<char>| #[trigger] comparison_names(cs@).contains(m) <==> (comparison_names(
        old(cs)@,
    ).contains(m) || m == name@) by {
        let o = comparison_names(old(cs)@);
        let f = comparison_names(cs@);
        if o.contains(m) {
            let k = choose|k: int| 0 <= k < o.len() && o[k] == m;
            assert(f[k] == m);
        }
        if m == name@ {
            assert(f[f.len() - 1] == m);
        }
        if f.contains(m) {
            let k = choose|k: int| 0 <= k < f.len() && f[k] == m;
            if k < o.len() {
                assert(o[k] == m);
            }
        }
    }
    assert(cs@[cs@.len() - 1].name@ == name@);
    assert forall|a: int, b: int| 0 <= a < b < comparison_names(cs@).len() implies comparison_names(
        cs@,
    )[a] != comparison_names(cs@)[b] by {
        if b < old(cs)@.len() {
            assert(comparison_names(old(cs)@)[a] != comparison_names(old(cs)@)[b]);
        }
    }
}

/// An attempt index: a signed 32-bit integer.
pub open spec fn index_spec(s: Seq<char>) -> Result<i32, ParseError> {
    match signed_value(s) {
        Some(v) => if i32::MIN <= v <= i32::MAX {
            Ok(v as i32)
        } else {
            Err(ParseError::IntegerFormat)
        },
        None => Err(ParseError::IntegerFormat),
    }
}

/// Reads an attempt index.
fn index_of(text: &String) -> (r: Result<i32, ParseError>)
    ensures
        r == index_spec(text@),
{
    let cs = chars_of(text.as_str());
    assert(cs@.subrange(0, cs@.len() as int) =~= cs@);
    signed_in(&cs, 0, cs.len())
}

/// A time in the form the document's version uses.
pub open spec fn versioned_time_spec(toks: Seq<Token>, pos: int, new_times: bool) -> Result<
    (Time, int),
    ParseError,
> {
    if new_times {
        time_spec(toks, pos, Time::empty_spec())
    } else {
        legacy_time_spec(toks, pos)
    }
}

/// Reads a time in the form the document's version uses.
fn read_versioned_time(toks: &Vec<Token>, pos: usize, new_times: bool) -> (r: Result<
    (Time, usize),
    ParseError,
>)
    requires
        well_ended(toks@),
        pos < toks@.len(),
    ensures
        r matches Ok((t, p)) ==> versioned_time_spec(toks@, pos as int, new_times) == Ok::<
            (Time, int),
            ParseError,
        >((t, p as int)) && pos < p < toks@.len(),
        r matches Err(e) ==> versioned_time_spec(toks@, pos as int, new_times) == Err::<
            (Time, int),
            ParseError,
        >(e),
{
    if new_times {
        read_time(toks, pos)
    } else {
        read_legacy_time(toks, pos)
    }
}

/// The segment history read from the children of `SegmentHistory` at `pos`
/// on, starting from `h`: each child's `id` keys its time, a later entry
/// replacing an earlier one.
pub open spec fn history_spec(toks: Seq<Token>, pos: int, new_times: bool, h: Seq<(i32, Time)>) -> Result<
    (Seq<(i32, Time)>, int),
    ParseError,
>
    decreases toks.len() - pos,
{
    if pos < 0 || pos >= toks.len() {
        Err(ParseError::UnexpectedEndOfInput)
    } else {
        match toks[pos] {
            Token::Open { attributes, malformed, .. } => match required_attr_spec(
                attributes@,
                malformed,
                "id",
            ) {
                Err(e) => Err(e),
                Ok(id) => match index_spec(id) {
                    Err(e) => Err(e),
                    Ok(k) => match versioned_time_spec(toks, pos + 1, new_times) {
                        Err(e) => Err(e),
                        Ok((t, p)) => if pos < p <= toks.len() {
                            history_spec(toks, p, new_times, history_insert(h, k, t))
                        } else {
                            Err(ParseError::Xml)
                        },
                    },
                },
            },
            Token::Close => Ok((h, pos + 1)),
            Token::Text(_) => history_spec(toks, pos + 1, new_times, h),
            Token::Eof => Err(ParseError::UnexpectedEndOfInput),
            Token::Fault => Err(ParseError::Xml),
        }
    }
}

/// The comparisons and custom comparison names read from the children of
/// `SplitTimes` at `pos` on: each `SplitTime` registers its `name` and sets
/// that comparison's time; other children are skipped.
pub open spec fn split_times_spec(
    toks: Seq<Token>,
    pos: int,
    new_times: bool,
    cs: Seq<(Seq<char>, Time)>,
    ns: Seq<Seq<char>>,
) -> Result<(Seq<(Seq<char>, Time)>, Seq<Seq<char>>, int), ParseError>
    decreases toks.len() - pos,
{
    if pos < 0 || pos >= toks.len() {
        Err(ParseError::UnexpectedEndOfInput)
    } else {
        match toks[pos] {
            Token::Open { name, attributes, malformed } => {
                let step: Result<(Seq<(Seq<char>, Time)>, Seq<Seq<char>>, int), ParseError> =
                    if named(name@, "SplitTime") {
                    match required_attr_spec(attributes@, malformed, "name") {
                        Err(e) => Err(e),
                        Ok(n) => match versioned_time_spec(toks, pos + 1, new_times) {
                            Err(e) => Err(e),
                            Ok((t, p)) => Ok((comparison_insert(cs, n, t), name_register(ns, n), p)),
                        },
                    }
                } else {
                    match skip_spec(toks, pos + 1, 0) {
                        Ok(p) => Ok((cs, ns, p)),
                        Err(e) => Err(e),
                    }
                };
                match step {
                    Err(e) => Err(e),
                    Ok((cs2, ns2, p)) => if pos < p <= toks.len() {
                        split_times_spec(toks, p, new_times, cs2, ns2)
                    } else {
                        Err(ParseError::Xml)
                    },
                }
            },
            Token::Close => Ok((cs, ns, pos + 1)),
            Token::Text(_) => split_times_spec(toks, pos + 1, new_times, cs, ns),
            Token::Eof => Err(ParseError::UnexpectedEndOfInput),
            Token::Fault => Err(ParseError::Xml),
        }
    }
}

/// From `(cs0, ns0)` to `(cs, ns)` names were only added, each to both: a
/// comparison name of `cs` new to `cs0` is in `ns`, and a name of `ns` new to
/// `ns0` is a comparison name of `cs`.
pub open spec fn tracks_names(cs0: Seq<Comparison>, ns0: Seq<String>, cs: Seq<Comparison>, ns: Seq<
    String,
>) -> bool {
    &&& forall|m: Seq<char>|
        #[trigger] comparison_names(cs0).contains(m) ==> comparison_names(cs).contains(m)
    &&& forall|m: Seq<char>| #[trigger] string_views(ns0).contains(m) ==> string_views(ns).contains(m)
    &&& forall|m: Seq<char>|
        #[trigger] comparison_names(cs).contains(m) ==> comparison_names(cs0).contains(m)
            || string_views(ns).contains(m)
    &&& forall|m: Seq<char>|
        #[trigger] string_views(ns).contains(m) ==> string_views(ns0).contains(m)
            || comparison_names(cs).contains(m)
}

pub proof fn lemma_tracks_names_trans(
    cs0: Seq<Comparison>,
    ns0: Seq<String>,
    cs1: Seq<Comparison>,
    ns1: Seq<String>,
    cs2: Seq<Comparison>,
    ns2: Seq<String>,
)
    requires
        tracks_names(cs0, ns0, cs1, ns1),
        tracks_names(cs1, ns1, cs2, ns2),
    ensures
        tracks_names(cs0, ns0, cs2, ns2),
{
    assert forall|m: Seq<char>| #[trigger] comparison_names(cs2).contains(m) implies comparison_names(
        cs0,
    ).contains(m) || string_views(ns2).contains(m) by {
        if comparison_names(cs1).contains(m) {
            assert(comparison_names(cs0).contains(m) || string_views(ns1).contains(m));
        }
    }
    assert forall|m: Seq<char>| #[trigger] string_views(ns2).contains(m) implies string_views(
        ns0,
    ).contains(m) || comparison_names(cs2).contains(m) by {
        if string_views(ns1).contains(m) {
            assert(string_views(ns0).contains(m) || comparison_names(cs1).contains(m));
        }
    }
}

/// A segment read with its names tracked keeps the run's names registered.
pub proof fn lemma_register_segment(
    segs: Seq<Segment>,
    custom0: Seq<String>,
    seg: Segment,
    custom1: Seq<String>,
)
    requires
        registered(segs, custom0),
        tracks_names(Seq::<Comparison>::empty(), custom0, seg.comparisons@, custom1),
    ensures
        registered(segs.push(seg), custom1),
{
    let n = segs.push(seg);
    assert forall|i: int, m: Seq<char>| 0 <= i < n.len() && #[trigger] seg_has(n[i], m) implies string_views(
        custom1,
    ).contains(m) by {
        if i < segs.len() {
            assert(n[i] == segs[i]);
            assert(string_views(custom0).contains(m));
        } else {
            assert(n[i] == seg);
            if comparison_names(Seq::<Comparison>::empty()).contains(m) {
                let k = choose|k: int|
                    0 <= k < comparison_names(Seq::<Comparison>::empty()).len()
                        && comparison_names(Seq::<Comparison>::empty())[k] == m;
            }
        }
    }
    assert forall|m: Seq<char>| #[trigger] string_views(custom1).contains(m) implies exists|i: int|
        0 <= i < n.len() && seg_has(n[i], m) by {
        if string_views(custom0).contains(m) {
            let i = choose|i: int| 0 <= i < segs.len() && seg_has(segs[i], m);
            assert(n[i] == segs[i]);
        } else {
            assert(comparison_names(seg.comparisons@).contains(m));
            assert(n[segs.len() as int] == seg);
            assert(seg_has(n[segs.len() as int], m));
        }
    }
}

/// The children of `SplitTimes`: each `SplitTime` names a custom comparison
/// and gives its time.
fn read_split_times(
    toks: &Vec<Token>,
    pos: usize,
    new_times: bool,
    cs: &mut Vec<Comparison>,
    custom: &mut Vec<String>,
) -> (r: Result<usize, ParseError>)
    requires
        well_ended(toks@),
        pos < toks@.len(),
        names_unique(comparison_names(old(cs)@)),
        names_unique(string_views(old(custom)@)),
    ensures
        names_unique(comparison_names(final(cs)@)),
        names_unique(string_views(final(custom)@)),
        tracks_names(old(cs)@, old(custom)@, final(cs)@, final(custom)@),
        r matches Ok(p) ==> split_times_spec(
            toks@,
            pos as int,
            new_times,
            comparisons_view(old(cs)@),
            string_views(old(custom)@),
        ) == Ok::<(Seq<(Seq<char>, Time)>, Seq<Seq<char>>, int), ParseError>(
            (comparisons_view(final(cs)@), string_views(final(custom)@), p as int),
        ) && pos < p < toks@.len(),
        r matches Err(e) ==> split_times_spec(
            toks@,
            pos as int,
            new_times,
            comparisons_view(old(cs)@),
            string_views(old(custom)@),
        ) == Err::<(Seq<(Seq<char>, Time)>, Seq<Seq<char>>, int), ParseError>(e),
{
    let mut i: usize = pos;
    while i < toks.len()
        invariant
            well_ended(toks@),
            pos <= i <= toks@.len(),
            names_unique(comparison_names(cs@)),
            names_unique(string_views(custom@)),
            tracks_names(old(cs)@, old(custom)@, cs@, custom@),
            split_times_spec(
                toks@,
                pos as int,
                new_times,
                comparisons_view(old(cs)@),
                string_views(old(custom)@),
            ) == split_times_spec(
                toks@,
                i as int,
                new_times,
                comparisons_view(cs@),
                string_views(custom@),
            ),
        decreases toks.len() - i,
    {
        match &toks[i] {
            Token::Open { name, attributes, malformed } => {
                if name_is(name, "SplitTime") {
                    let n = required_attribute(attributes, *malformed, "name")?;
                    let (t, p) = read_versioned_time(toks, i + 1, new_times)?;
                    register_name(custom, &n);
                    set_comparison(cs, &n, t);
                    i = p;
                } else {
                    i = skip_element(toks, i + 1)?;
                }
            },
            Token::Close => {
                if i + 1 >= toks.len() {
                    assert(toks@[i as int] is Close);
                }
                return Ok(i + 1);
            },
            Token::Text(_) => {
                i = i + 1;
            },
            Token::Eof => {
                return Err(ParseError::UnexpectedEndOfInput);
            },
            Token::Fault => {
                return Err(ParseError::Xml);
            },
        }
    }
    Err(ParseError::UnexpectedEndOfInput)
}

/// The children of `SegmentHistory`: each has an `id` and a time, stored
/// under that id; a later entry replaces an earlier one with the same id.
fn read_segment_history(
    toks: &Vec<Token>,
    pos: usize,
    new_times: bool,
    h: &mut Vec<(i32, Time)>,
) -> (r: Result<usize, ParseError>)
    requires
        well_ended(toks@),
        pos < toks@.len(),
        history_keys_unique(old(h)@),
    ensures
        history_keys_unique(final(h)@),
        r matches Ok(p) ==> history_spec(toks@, pos as int, new_times, old(h)@) == Ok::<
            (Seq<(i32, Time)>, int),
            ParseError,
        >((final(h)@, p as int)) && pos < p < toks@.len(),
        r matches Err(e) ==> history_spec(toks@, pos as int, new_times, old(h)@) == Err::<
            (Seq<(i32, Time)>, int),
            ParseError,
        >(e),
{
    let mut i: usize = pos;
    while i < toks.len()
        invariant
            well_ended(toks@),
            pos <= i <= toks@.len(),
            history_keys_unique(h@),
            history_spec(toks@, pos as int, new_times, old(h)@) == history_spec(
                toks@,
                i as int,
                new_times,
                h@,
            ),
        decreases toks.len() - i,
    {
        match &toks[i] {
            Token::Open { attributes, malformed, .. } => {
                let id = required_attribute(attributes, *malformed, "id")?;
                let index = index_of(&id)?;
                let (t, p) = read_versioned_time(toks, i + 1, new_times)?;
                history_set(h, index, t);
                i = p;
            },
            Token::Close => {
                if i + 1 >= toks.len() {
                    assert(toks@[i as int] is Close);
                }
                return Ok(i + 1);
            },
            Token::Text(_) => {
                i = i + 1;
            },
            Token::Eof => {
                return Err(ParseError::UnexpectedEndOfInput);
            },
            Token::Fault => {
                return Err(ParseError::Xml);
            },
        }
    }
    Err(ParseError::UnexpectedEndOfInput)
}

/// The segment and custom comparison names read from the children of a
/// `Segment` at `pos` on, starting from `seg` and `ns`. `split_times` tells
/// whether the version has comparison split times (1.3 on) rather than the
/// legacy personal best split time; `new_times` whether times are in the
/// child form (1.4.1 on).
pub open spec fn segment_spec(
    toks: Seq<Token>,
    pos: int,
    split_times: bool,
    new_times: bool,
    seg: SegmentModel,
    ns: Seq<Seq<char>>,
) -> Result<(SegmentModel, Seq<Seq<char>>, int), ParseError>
    decreases toks.len() - pos,
{
    if pos < 0 || pos >= toks.len() {
        Err(ParseError::UnexpectedEndOfInput)
    } else {
        match toks[pos] {
            Token::Open { name, .. } => {
                let step: Result<(SegmentModel, Seq<Seq<char>>, int), ParseError> = if named(
                    name@,
                    "Name",
                ) {
                    match text_spec(toks, pos + 1) {
                        Ok((t, p)) => Ok((SegmentModel { name: t, ..seg }, ns, p)),
                        Err(e) => Err(e),
                    }
                } else if named(name@, "Icon") {
                    match image_read_spec(toks, pos + 1) {
                        Ok((b, p)) => Ok((SegmentModel { icon: b, ..seg }, ns, p)),
                        Err(e) => Err(e),
                    }
                } else if named(name@, "SplitTimes") && split_times {
                    match split_times_spec(toks, pos + 1, new_times, seg.comparisons, ns) {
                        Ok((cs, ns2, p)) => Ok((SegmentModel { comparisons: cs, ..seg }, ns2, p)),
                        Err(e) => Err(e),
                    }
                } else if named(name@, "PersonalBestSplitTime") && !split_times {
                    match legacy_time_spec(toks, pos + 1) {
                        Ok((t, p)) => Ok(
                            (SegmentModel { personal_best_split_time: Some(t), ..seg }, ns, p),
                        ),
                        Err(e) => Err(e),
                    }
                } else if named(name@, "BestSegmentTime") {
                    match versioned_time_spec(toks, pos + 1, new_times) {
                        Ok((t, p)) => Ok((SegmentModel { best_segment_time: t, ..seg }, ns, p)),
                        Err(e) => Err(e),
                    }
                } else if named(name@, "SegmentHistory") {
                    match history_spec(toks, pos + 1, new_times, seg.segment_history) {
                        Ok((h, p)) => Ok((SegmentModel { segment_history: h, ..seg }, ns, p)),
                        Err(e) => Err(e),
                    }
                } else {
                    match skip_spec(toks, pos + 1, 0) {
                        Ok(p) => Ok((seg, ns, p)),
                        Err(e) => Err(e),
                    }
                };
                match step {
                    Err(e) => Err(e),
                    Ok((seg2, ns2, p)) => if pos < p <= toks.len() {
                        segment_spec(toks, p, split_times, new_times, seg2, ns2)
                    } else {
                        Err(ParseError::Xml)
                    },
                }
            },
            Token::Close => Ok((seg, ns, pos + 1)),
            Token::Text(_) => segment_spec(toks, pos + 1, split_times, new_times, seg, ns),
            Token::Eof => Err(ParseError::UnexpectedEndOfInput),
            Token::Fault => Err(ParseError::Xml),
        }
    }
}

/// Reads the children of a `Segment`. Split times by comparison come from
/// 1.3 on, the legacy personal best split time only before it; times are in
/// the child form from 1.4.1 on.
pub(crate) fn read_segment(
    toks: &Vec<Token>,
    pos: usize,
    version: Version,
    custom: &mut Vec<String>,
) -> (r: Result<(Segment, usize), ParseError>)
    requires
        well_ended(toks@),
        pos < toks@.len(),
        names_unique(string_views(old(custom)@)),
    ensures
        names_unique(string_views(final(custom)@)),
        r matches Ok((seg, p)) ==> {
            &&& segment_spec(
                toks@,
                pos as int,
                version_ge(version, Version(1, 3, 0, 0)),
                version_ge(version, Version(1, 4, 1, 0)),
                empty_segment(),
                string_views(old(custom)@),
            ) == Ok::<(SegmentModel, Seq<Seq<char>>, int), ParseError>(
                (seg.model(), string_views(final(custom)@), p as int),
            )
            &&& seg.wf()
            &&& tracks_names(
                Seq::<Comparison>::empty(),
                old(custom)@,
                seg.comparisons@,
                final(custom)@,
            )
            &&& pos < p < toks@.len()
            &&& !version_ge(version, Version(1, 3, 0, 0)) ==> seg.comparisons@.len() == 0
            &&& version_ge(version, Version(1, 3, 0, 0)) ==> seg.personal_best_split_time is None
        },
        r matches Err(e) ==> segment_spec(
            toks@,
            pos as int,
            version_ge(version, Version(1, 3, 0, 0)),
            version_ge(version, Version(1, 4, 1, 0)),
            empty_segment(),
            string_views(old(custom)@),
        ) == Err::<(SegmentModel, Seq<Seq<char>>, int), ParseError>(e),
{
    let split_times = version.at_least(&Version(1, 3, 0, 0));
    let new_times = version.at_least(&Version(1, 4, 1, 0));
    let mut seg = Segment::new();
    let mut i: usize = pos;
    while i < toks.len()
        invariant
            well_ended(toks@),
            pos <= i <= toks@.len(),
            seg.wf(),
            names_unique(string_views(custom@)),
            tracks_names(Seq::<Comparison>::empty(), old(custom)@, seg.comparisons@, custom@),
            split_times == version_ge(version, Version(1, 3, 0, 0)),
            new_times == version_ge(version, Version(1, 4, 1, 0)),
            !split_times ==> seg.comparisons@.len() == 0,
            split_times ==> seg.personal_best_split_time is None,
            segment_spec(
                toks@,
                pos as int,
                split_times,
                new_times,
                empty_segment(),
                string_views(old(custom)@),
            ) == segment_spec(
                toks@,
                i as int,
                split_times,
                new_times,
                seg.model(),
                string_views(custom@),
            ),
        decreases toks.len() - i,
    {
        match &toks[i] {
            Token::Open { name, .. } => {
                if name_is(name, "Name") {
                    let (t, p) = read_text(toks, i + 1)?;
                    seg.name = t;
                    i = p;
                } else if name_is(name, "Icon") {
                    let (b, p) = read_image(toks, i + 1)?;
                    seg.icon = b;
                    i = p;
                } else if name_is(name, "SplitTimes") && split_times {
                    let ghost cs1 = seg.comparisons@;
                    let ghost ns1 = custom@;
                    i = read_split_times(toks, i + 1, new_times, &mut seg.comparisons, custom)?;
                    proof {
                        lemma_tracks_names_trans(
                            Seq::<Comparison>::empty(),
                            old(custom)@,
                            cs1,
                            ns1,
                            seg.comparisons@,
                            custom@,
                        );
                    }
                } else if name_is(name, "PersonalBestSplitTime") && !split_times {
                    let (t, p) = read_legacy_time(toks, i + 1)?;
                    seg.personal_best_split_time = Some(t);
                    i = p;
                } else if name_is(name, "BestSegmentTime") {
                    let (t, p) = read_versioned_time(toks, i + 1, new_times)?;
                    seg.best_segment_time = t;
                    i = p;
                } else if name_is(name, "SegmentHistory") {
                    i = read_segment_history(toks, i + 1, new_times, &mut seg.segment_history)?;
                } else {
                    i = skip_element(toks, i + 1)?;
                }
            },
            Token::Close => {
                if i + 1 >= toks.len() {
                    assert(toks@[i as int] is Close);
                }
                return Ok((seg, i + 1));
            },
            Token::Text(_) => {
                i = i + 1;
            },
            Token::Eof => {
                return Err(ParseError::UnexpectedEndOfInput);
            },
            Token::Fault => {
                return Err(ParseError::Xml);
            },
        }
    }
    Err(ParseError::UnexpectedEndOfInput)
}

/// The attempts read from the children of a legacy `RunHistory` at `pos` on,
/// appended to `a`: each child's `id` and time make an attempt with nothing
/// else recorded.
pub open spec fn run_history_spec(toks: Seq<Token>, pos: int, new_times: bool, a: Seq<Attempt>) -> Result<
    (Seq<Attempt>, int),
    ParseError,
>
    decreases toks.len() - pos,
{
    if pos < 0 || pos >= toks.len() {
        Err(ParseError::UnexpectedEndOfInput)
    } else {
        match toks[pos] {
            Token::Open { attributes, malformed, .. } => match required_attr_spec(
                attributes@,
                malformed,
                "id",
            ) {
                Err(e) => Err(e),
                Ok(id) => match index_spec(id) {
                    Err(e) => Err(e),
                    Ok(k) => match versioned_time_spec(toks, pos + 1, new_times) {
                        Err(e) => Err(e),
                        Ok((t, p)) => if pos < p <= toks.len() {
                            run_history_spec(
                                toks,
                                p,
                                new_times,
                                a.push(
                                    Attempt {
                                        index: k,
                                        time: t,
                                        pause_time: None,
                                        started: None,
                                        ended: None,
                                    },
                                ),
                            )
                        } else {
                            Err(ParseError::Xml)
                        },
                    },
                },
            },
            Token::Close => Ok((a, pos + 1)),
            Token::Text(_) => run_history_spec(toks, pos + 1, new_times, a),
            Token::Eof => Err(ParseError::UnexpectedEndOfInput),
            Token::Fault => Err(ParseError::Xml),
        }
    }
}

/// What reading a `RunHistory` at `pos` does to the attempts `a`: from 1.5 on
/// the element is skipped and `a` kept.
pub open spec fn run_history_read_spec(toks: Seq<Token>, pos: int, version: Version, a: Seq<Attempt>) -> Result<
    (Seq<Attempt>, int),
    ParseError,
> {
    if version_ge(version, Version(1, 5, 0, 0)) {
        match skip_spec(toks, pos, 0) {
            Ok(p) => Ok((a, p)),
            Err(e) => Err(e),
        }
    } else {
        run_history_spec(toks, pos, version_ge(version, Version(1, 4, 1, 0)), a)
    }
}

/// Reads a `RunHistory`. From 1.5 on it is skipped, as `AttemptHistory`
/// supersedes it; before that each child has an `id` and a time and becomes
/// an attempt with only that time.
pub(crate) fn read_run_history(
    toks: &Vec<Token>,
    pos: usize,
    version: Version,
    attempts: &mut Vec<Attempt>,
) -> (r: Result<usize, ParseError>)
    requires
        well_ended(toks@),
        pos < toks@.len(),
    ensures
        version_ge(version, Version(1, 5, 0, 0)) ==> final(attempts)@ == old(attempts)@,
        r matches Ok(p) ==> run_history_read_spec(toks@, pos as int, version, old(attempts)@)
            == Ok::<(Seq<Attempt>, int), ParseError>((final(attempts)@, p as int)) && pos < p
            < toks@.len(),
        r matches Err(e) ==> run_history_read_spec(toks@, pos as int, version, old(attempts)@)
            == Err::<(Seq<Attempt>, int), ParseError>(e),
{
    if version.at_least(&Version(1, 5, 0, 0)) {
        return skip_element(toks, pos);
    }
    let new_times = version.at_least(&Version(1, 4, 1, 0));
    let mut i: usize = pos;
    while i < toks.len()
        invariant
            well_ended(toks@),
            pos <= i <= toks@.len(),
            !version_ge(version, Version(1, 5, 0, 0)),
            new_times == version_ge(version, Version(1, 4, 1, 0)),
            run_history_spec(toks@, pos as int, new_times, old(attempts)@) == run_history_spec(
                toks@,
                i as int,
                new_times,
                attempts@,
            ),
        decreases toks.len() - i,
    {
        match &toks[i] {
            Token::Open { attributes, malformed, .. } => {
                let id = required_attribute(attributes, *malformed, "id")?;
                let index = index_of(&id)?;
                let (t, p) = read_versioned_time(toks, i + 1, new_times)?;
                attempts.push(
                    Attempt { index, time: t, pause_time: None, started: None, ended: None },
                );
                i = p;
            },
            Token::Close => {
                if i + 1 >= toks.len() {
                    assert(toks@[i as int] is Close);
                }
                return Ok(i + 1);
            },
            Token::Text(_) => {
                i = i + 1;
            },
            Token::Eof => {
                return Err(ParseError::UnexpectedEndOfInput);
            },
            Token::Fault => {
                return Err(ParseError::Xml);
            },
        }
    }
    Err(ParseError::UnexpectedEndOfInput)
}

/// The seconds since the Unix epoch that `text` gives as a UTC date and time
/// in the layout `fmt`, or nothing where it does not follow it.
pub uninterp spec fn timestamp_of(text: Seq<char>, fmt: Seq<char>) -> Option<int>;

/// Relies on chrono's NaiveDateTime::parse_from_str and timestamp: the
/// seconds since the epoch of `text` read in the layout `fmt` as UTC.
#[verifier::external_body]
fn parse_timestamp(text: &str, fmt: &str) -> (r: Option<i64>)
    ensures
        r is Some <==> timestamp_of(text@, fmt@) is Some,
        r matches Some(v) ==> timestamp_of(text@, fmt@) == Some(v as int),
{
    chrono::NaiveDateTime::parse_from_str(text, fmt).ok().map(|d| d.and_utc().timestamp())
}

/// The layout of attempt timestamps: month/day/year hour:minute:second.
pub const DATE_LAYOUT: &'static str = "%m/%d/%Y %T";

/// An attempt timestamp: seconds since the epoch in the fixed layout.
pub open spec fn date_spec(text: Seq<char>) -> Result<DateTime, ParseError> {
    match timestamp_of(text, DATE_LAYOUT@) {
        Some(v) => Ok(DateTime { nanos: (v * 1_000_000_000) as i128 }),
        None => Err(ParseError::DateFormat),
    }
}

/// Reads an attempt timestamp.
pub fn parse_date_time(text: &str) -> (r: Result<DateTime, ParseError>)
    ensures
        r == date_spec(text@),
{
    match parse_timestamp(text, DATE_LAYOUT) {
        Some(v) => Ok(DateTime { nanos: v as i128 * 1_000_000_000 }),
        None => Err(ParseError::DateFormat),
    }
}

/// The attributes of one `AttemptHistory` entry.
#[derive(Debug, Clone, Copy, PartialEq, Eq, Structural)]
pub struct AttemptHeader {
    pub index: Option<i32>,
    pub started: Option<DateTime>,
    pub started_synced: bool,
    pub ended: Option<DateTime>,
    pub ended_synced: bool,
}

/// A header with no attribute read yet.
pub open spec fn empty_header() -> AttemptHeader {
    AttemptHeader {
        index: None,
        started: None,
        started_synced: false,
        ended: None,
        ended_synced: false,
    }
}

/// A boolean attribute value.
pub open spec fn bool_spec(s: Seq<char>) -> Result<bool, ParseError> {
    match bool_value(s) {
        Some(b) => Ok(b),
        None => Err(ParseError::InvalidBoolean),
    }
}

/// What one attribute adds to a header.
pub open spec fn header_step(a: Attribute, h: AttemptHeader) -> Result<AttemptHeader, ParseError> {
    if named(a.key@, "id") {
        match attr_value_spec(a) {
            Err(e) => Err(e),
            Ok(v) => match index_spec(v) {
                Ok(k) => Ok(AttemptHeader { index: Some(k), ..h }),
                Err(e) => Err(e),
            },
        }
    } else if named(a.key@, "started") {
        match attr_value_spec(a) {
            Err(e) => Err(e),
            Ok(v) => match date_spec(v) {
                Ok(d) => Ok(AttemptHeader { started: Some(d), ..h }),
                Err(e) => Err(e),
            },
        }
    } else if named(a.key@, "isStartedSynced") {
        match attr_value_spec(a) {
            Err(e) => Err(e),
            Ok(v) => match bool_spec(v) {
                Ok(b) => Ok(AttemptHeader { started_synced: b, ..h }),
                Err(e) => Err(e),
            },
        }
    } else if named(a.key@, "ended") {
        match attr_value_spec(a) {
            Err(e) => Err(e),
            Ok(v) => match date_spec(v) {
                Ok(d) => Ok(AttemptHeader { ended: Some(d), ..h }),
                Err(e) => Err(e),
            },
        }
    } else if named(a.key@, "isEndedSynced") {
        match attr_value_spec(a) {
            Err(e) => Err(e),
            Ok(v) => match bool_spec(v) {
                Ok(b) => Ok(AttemptHeader { ended_synced: b, ..h }),
                Err(e) => Err(e),
            },
        }
    } else {
        Ok(h)
    }
}

/// The header that the attributes `attrs[i..]` give, starting from `h`; an
/// attribute list that breaks off fails once all before the break are read.
pub open spec fn header_spec(attrs: Seq<Attribute>, malformed: bool, i: int, h: AttemptHeader) -> Result<
    AttemptHeader,
    ParseError,
>
    decreases attrs.len() - i,
{
    if i < 0 || i >= attrs.len() {
        if malformed {
            Err(ParseError::Xml)
        } else {
            Ok(h)
        }
    } else {
        match header_step(attrs[i], h) {
            Err(e) => Err(e),
            Ok(h2) => header_spec(attrs, malformed, i + 1, h2),
        }
    }
}

/// Reads every attribute of an `AttemptHistory` entry, in order.
fn read_attempt_header(attrs: &Vec<Attribute>, malformed: bool) -> (r: Result<
    AttemptHeader,
    ParseError,
>)
    ensures
        r == header_spec(attrs@, malformed, 0, empty_header()),
{
    let mut h = AttemptHeader {
        index: None,
        started: None,
        started_synced: false,
        ended: None,
        ended_synced: false,
    };
    let mut i: usize = 0;
    while i < attrs.len()
        invariant
            i <= attrs@.len(),
            header_spec(attrs@, malformed, 0, empty_header()) == header_spec(
                attrs@,
                malformed,
                i as int,
                h,
            ),
        decreases attrs.len() - i,
    {
        let a = &attrs[i];
        if name_is(&a.key, "id") {
            h.index = Some(index_of(&attribute_value(a)?)?);
        } else if name_is(&a.key, "started") {
            h.started = Some(parse_date_time(attribute_value(a)?.as_str())?);
        } else if name_is(&a.key, "isStartedSynced") {
            h.started_synced = parse_bool(attribute_value(a)?.as_str())?;
        } else if name_is(&a.key, "ended") {
            h.ended = Some(parse_date_time(attribute_value(a)?.as_str())?);
        } else if name_is(&a.key, "isEndedSynced") {
            h.ended_synced = parse_bool(attribute_value(a)?.as_str())?;
        }
        i = i + 1;
    }
    if malformed {
        return Err(ParseError::Xml);
    }
    Ok(h)
}

/// The time and pause read from the `RealTime`, `GameTime` and `PauseTime`
/// children of an `AttemptHistory` entry at `pos` on; other children are
/// skipped.
pub open spec fn attempt_times_spec(toks: Seq<Token>, pos: int, t: Time, pause: Option<TimeSpan>) -> Result<
    (Time, Option<TimeSpan>, int),
    ParseError,
>
    decreases toks.len() - pos,
{
    if pos < 0 || pos >= toks.len() {
        Err(ParseError::UnexpectedEndOfInput)
    } else {
        match toks[pos] {
            Token::Open { name, .. } => {
                let step: Result<(Time, Option<TimeSpan>, int), ParseError> = if named(
                    name@,
                    "RealTime",
                ) {
                    match span_opt_spec(toks, pos + 1) {
                        Ok((v, p)) => Ok((with_real(t, v), pause, p)),
                        Err(e) => Err(e),
                    }
                } else if named(name@, "GameTime") {
                    match span_opt_spec(toks, pos + 1) {
                        Ok((v, p)) => Ok((with_game(t, v), pause, p)),
                        Err(e) => Err(e),
                    }
                } else if named(name@, "PauseTime") {
                    match span_opt_spec(toks, pos + 1) {
                        Ok((v, p)) => Ok((t, v, p)),
                        Err(e) => Err(e),
                    }
                } else {
                    match skip_spec(toks, pos + 1, 0) {
                        Ok(p) => Ok((t, pause, p)),
                        Err(e) => Err(e),
                    }
                };
                match step {
                    Err(e) => Err(e),
                    Ok((t2, pause2, p)) => if pos < p <= toks.len() {
                        attempt_times_spec(toks, p, t2, pause2)
                    } else {
                        Err(ParseError::Xml)
                    },
                }
            },
            Token::Close => Ok((t, pause, pos + 1)),
            Token::Text(_) => attempt_times_spec(toks, pos + 1, t, pause),
            Token::Eof => Err(ParseError::UnexpectedEndOfInput),
            Token::Fault => Err(ParseError::Xml),
        }
    }
}

/// A timestamp with its sync flag, where there is one.
pub open spec fn stamp(d: Option<DateTime>, synced: bool) -> Option<AtomicDateTime> {
    match d {
        Some(t) => Some(AtomicDateTime { time: t, synced_with_atomic_clock: synced }),
        None => None,
    }
}

/// The attempts read from the children of `AttemptHistory` at `pos` on,
/// appended to `a`.
pub open spec fn attempt_history_spec(toks: Seq<Token>, pos: int, a: Seq<Attempt>) -> Result<
    (Seq<Attempt>, int),
    ParseError,
>
    decreases toks.len() - pos,
{
    if pos < 0 || pos >= toks.len() {
        Err(ParseError::UnexpectedEndOfInput)
    } else {
        match toks[pos] {
            Token::Open { attributes, malformed, .. } => match header_spec(
                attributes@,
                malformed,
                0,
                empty_header(),
            ) {
                Err(e) => Err(e),
                Ok(h) => match h.index {
                    None => Err(ParseError::AttributeNotFound),
                    Some(k) => match attempt_times_spec(toks, pos + 1, Time::empty_spec(), None) {
                        Err(e) => Err(e),
                        Ok((t, pause, p)) => if pos < p <= toks.len() {
                            attempt_history_spec(
                                toks,
                                p,
                                a.push(
                                    Attempt {
                                        index: k,
                                        time: t,
                                        pause_time: pause,
                                        started: stamp(h.started, h.started_synced),
                                        ended: stamp(h.ended, h.ended_synced),
                                    },
                                ),
                            )
                        } else {
                            Err(ParseError::Xml)
                        },
                    },
                },
            },
            Token::Close => Ok((a, pos + 1)),
            Token::Text(_) => attempt_history_spec(toks, pos + 1, a),
            Token::Eof => Err(ParseError::UnexpectedEndOfInput),
            Token::Fault => Err(ParseError::Xml),
        }
    }
}

/// What reading an `AttemptHistory` at `pos` does to the attempts `a`: before
/// 1.5 the element is skipped and `a` kept.
pub open spec fn attempt_history_read_spec(
    toks: Seq<Token>,
    pos: int,
    version: Version,
    a: Seq<Attempt>,
) -> Result<(Seq<Attempt>, int), ParseError> {
    if !version_ge(version, Version(1, 5, 0, 0)) {
        match skip_spec(toks, pos, 0) {
            Ok(p) => Ok((a, p)),
            Err(e) => Err(e),
        }
    } else {
        attempt_history_spec(toks, pos, a)
    }
}

/// Reads an `AttemptHistory`, which documents from 1.5 on hold; earlier ones
/// have it skipped. Each entry has an `id`, optional `started` and `ended`
/// timestamps with their sync flags, and `RealTime`, `GameTime` and
/// `PauseTime` children.
pub(crate) fn read_attempt_history(
    toks: &Vec<Token>,
    pos: usize,
    version: Version,
    attempts: &mut Vec<Attempt>,
) -> (r: Result<usize, ParseError>)
    requires
        well_ended(toks@),
        pos < toks@.len(),
    ensures
        !version_ge(version, Version(1, 5, 0, 0)) ==> final(attempts)@ == old(attempts)@,
        r matches Ok(p) ==> attempt_history_read_spec(toks@, pos as int, version, old(attempts)@)
            == Ok::<(Seq<Attempt>, int), ParseError>((final(attempts)@, p as int)) && pos < p
            < toks@.len(),
        r matches Err(e) ==> attempt_history_read_spec(toks@, pos as int, version, old(attempts)@)
            == Err::<(Seq<Attempt>, int), ParseError>(e),
{
    if !version.at_least(&Version(1, 5, 0, 0)) {
        return skip_element(toks, pos);
    }
    let mut i: usize = pos;
    while i < toks.len()
        invariant
            well_ended(toks@),
            pos <= i <= toks@.len(),
            version_ge(version, Version(1, 5, 0, 0)),
            attempt_history_spec(toks@, pos as int, old(attempts)@) == attempt_history_spec(
                toks@,
                i as int,
                attempts@,
            ),
        decreases toks.len() - i,
    {
        match &toks[i] {
            Token::Open { attributes, malformed, .. } => {
                let h = read_attempt_header(attributes, *malformed)?;
                let index = match h.index {
                    Some(v) => v,
                    None => {
                        return Err(ParseError::AttributeNotFound);
                    },
                };
                let (time, pause_time, p) = read_attempt_times(toks, i + 1)?;
                let started = match h.started {
                    Some(t) => Some(
                        AtomicDateTime { time: t, synced_with_atomic_clock: h.started_synced },
                    ),
                    None => None,
                };
                let ended = match h.ended {
                    Some(t) => Some(
                        AtomicDateTime { time: t, synced_with_atomic_clock: h.ended_synced },
                    ),
                    None => None,
                };
                attempts.push(Attempt { index, time, pause_time, started, ended });
                i = p;
            },
            Token::Close => {
                if i + 1 >= toks.len() {
                    assert(toks@[i as int] is Close);
                }
                return Ok(i + 1);
            },
            Token::Text(_) => {
                i = i + 1;
            },
            Token::Eof => {
                return Err(ParseError::UnexpectedEndOfInput);
            },
            Token::Fault => {
                return Err(ParseError::Xml);
            },
        }
    }
    Err(ParseError::UnexpectedEndOfInput)
}

/// Reads the `RealTime`, `GameTime` and `PauseTime` children of an
/// `AttemptHistory` entry.
fn read_attempt_times(toks: &Vec<Token>, pos: usize) -> (r: Result<
    (Time, Option<TimeSpan>, usize),
    ParseError,
>)
    requires
        well_ended(toks@),
        pos < toks@.len(),
    ensures
        r matches Ok((t, pause, p)) ==> attempt_times_spec(toks@, pos as int, Time::empty_spec(), None)
            == Ok::<(Time, Option<TimeSpan>, int), ParseError>((t, pause, p as int)) && pos < p
            < toks@.len(),
        r matches Err(e) ==> attempt_times_spec(toks@, pos as int, Time::empty_spec(), None)
            == Err::<(Time, Option<TimeSpan>, int), ParseError>(e),
{
    let mut time = Time::new();
    let mut pause: Option<TimeSpan> = None;
    let mut i: usize = pos;
    while i < toks.len()
        invariant
            well_ended(toks@),
            pos <= i <= toks@.len(),
            attempt_times_spec(toks@, pos as int, Time::empty_spec(), None) == attempt_times_spec(
                toks@,
                i as int,
                time,
                pause,
            ),
        decreases toks.len() - i,
    {
        match &toks[i] {
            Token::Open { name, .. } => {
                if name_is(name, "RealTime") {
                    let (t, p) = read_span_opt(toks, i + 1)?;
                    time = Time { real_time: t, game_time: time.game_time };
                    i = p;
                } else if name_is(name, "GameTime") {
                    let (t, p) = read_span_opt(toks, i + 1)?;
                    time = Time { real_time: time.real_time, game_time: t };
                    i = p;
                } else if name_is(name, "PauseTime") {
                    let (t, p) = read_span_opt(toks, i + 1)?;
                    pause = t;
                    i = p;
                } else {
                    i = skip_element(toks, i + 1)?;
                }
            },
            Token::Close => {
                if i + 1 >= toks.len() {
                    assert(toks@[i as int] is Close);
                }
                return Ok((time, pause, i + 1));
            },
            Token::Text(_) => {
                i = i + 1;
            },
            Token::Eof => {
                return Err(ParseError::UnexpectedEndOfInput);
            },
            Token::Fault => {
                return Err(ParseError::Xml);
            },
        }
    }
    Err(ParseError::UnexpectedEndOfInput)
}

/// The variables read from the children of `Variables` at `pos` on, appended
/// to `vs`: each child's `name` attribute and text.
pub open spec fn variables_spec(toks: Seq<Token>, pos: int, vs: Seq<(Seq<char>, Seq<char>)>) -> Result<
    (Seq<(Seq<char>, Seq<char>)>, int),
    ParseError,
>
    decreases toks.len() - pos,
{
    if pos < 0 || pos >= toks.len() {
        Err(ParseError::UnexpectedEndOfInput)
    } else {
        match toks[pos] {
            Token::Open { attributes, malformed, .. } => match required_attr_spec(
                attributes@,
                malformed,
                "name",
            ) {
                Err(e) => Err(e),
                Ok(n) => match text_spec(toks, pos + 1) {
                    Err(e) => Err(e),
                    Ok((v, p)) => if pos < p <= toks.len() {
                        variables_spec(toks, p, vs.push((n, v)))
                    } else {
                        Err(ParseError::Xml)
                    },
                },
            },
            Token::Close => Ok((vs, pos + 1)),
            Token::Text(_) => variables_spec(toks, pos + 1, vs),
            Token::Eof => Err(ParseError::UnexpectedEndOfInput),
            Token::Fault => Err(ParseError::Xml),
        }
    }
}

/// The children of `Variables`: each has a `name` and text, appended in
/// document order.
fn read_variables(toks: &Vec<Token>, pos: usize, vars: &mut Vec<Variable>) -> (r: Result<
    usize,
    ParseError,
>)
    requires
        well_ended(toks@),
        pos < toks@.len(),
    ensures
        r matches Ok(p) ==> variables_spec(toks@, pos as int, variables_view(old(vars)@)) == Ok::<
            (Seq<(Seq<char>, Seq<char>)>, int),
            ParseError,
        >((variables_view(final(vars)@), p as int)) && pos < p < toks@.len(),
        r matches Err(e) ==> variables_spec(toks@, pos as int, variables_view(old(vars)@)) == Err::<
            (Seq<(Seq<char>, Seq<char>)>, int),
            ParseError,
        >(e),
{
    let mut i: usize = pos;
    while i < toks.len()
        invariant
            well_ended(toks@),
            pos <= i <= toks@.len(),
            variables_spec(toks@, pos as int, variables_view(old(vars)@)) == variables_spec(
                toks@,
                i as int,
                variables_view(vars@),
            ),
        decreases toks.len() - i,
    {
        match &toks[i] {
            Token::Open { attributes, malformed, .. } => {
                let name = required_attribute(attributes, *malformed, "name")?;
                let (value, p) = read_text(toks, i + 1)?;
                let ghost before = vars@;
                vars.push(Variable { name, value });
                assert(variables_view(vars@) =~= variables_view(before).push((name@, value@)));
                i = p;
            },
            Token::Close => {
                if i + 1 >= toks.len() {
                    assert(toks@[i as int] is Close);
                }
                return Ok(i + 1);
            },
            Token::Text(_) => {
                i = i + 1;
            },
            Token::Eof => {
                return Err(ParseError::UnexpectedEndOfInput);
            },
            Token::Fault => {
                return Err(ParseError::Xml);
            },
        }
    }
    Err(ParseError::UnexpectedEndOfInput)
}

/// The metadata read from the children of `Metadata` at `pos` on, starting
/// from `md`.
pub open spec fn metadata_spec(toks: Seq<Token>, pos: int, md: MetadataModel) -> Result<
    (MetadataModel, int),
    ParseError,
>
    decreases toks.len() - pos,
{
    if pos < 0 || pos >= toks.len() {
        Err(ParseError::UnexpectedEndOfInput)
    } else {
        match toks[pos] {
            Token::Open { name, attributes, malformed } => {
                let step: Result<(MetadataModel, int), ParseError> = if named(name@, "Run") {
                    match required_attr_spec(attributes@, malformed, "id") {
                        Err(e) => Err(e),
                        Ok(id) => match skip_spec(toks, pos + 1, 0) {
                            Ok(p) => Ok((MetadataModel { run_id: id, ..md }, p)),
                            Err(e) => Err(e),
                        },
                    }
                } else if named(name@, "Platform") {
                    let emu: Result<bool, ParseError> = match attr_spec(
                        attributes@,
                        malformed,
                        "usesEmulator",
                        0,
                    ) {
                        Err(e) => Err(e),
                        Ok(None) => Ok(md.uses_emulator),
                        Ok(Some(v)) => bool_spec(v),
                    };
                    match emu {
                        Err(e) => Err(e),
                        Ok(b) => match text_spec(toks, pos + 1) {
                            Ok((t, p)) => Ok(
                                (MetadataModel { uses_emulator: b, platform_name: t, ..md }, p),
                            ),
                            Err(e) => Err(e),
                        },
                    }
                } else if named(name@, "Region") {
                    match text_spec(toks, pos + 1) {
                        Ok((t, p)) => Ok((MetadataModel { region_name: t, ..md }, p)),
                        Err(e) => Err(e),
                    }
                } else if named(name@, "Variables") {
                    match variables_spec(toks, pos + 1, md.variables) {
                        Ok((vs, p)) => Ok((MetadataModel { variables: vs, ..md }, p)),
                        Err(e) => Err(e),
                    }
                } else {
                    match skip_spec(toks, pos + 1, 0) {
                        Ok(p) => Ok((md, p)),
                        Err(e) => Err(e),
                    }
                };
                match step {
                    Err(e) => Err(e),
                    Ok((md2, p)) => if pos < p <= toks.len() {
                        metadata_spec(toks, p, md2)
                    } else {
                        Err(ParseError::Xml)
                    },
                }
            },
            Token::Close => Ok((md, pos + 1)),
            Token::Text(_) => metadata_spec(toks, pos + 1, md),
            Token::Eof => Err(ParseError::UnexpectedEndOfInput),
            Token::Fault => Err(ParseError::Xml),
        }
    }
}

/// What reading `Metadata` at `pos` does to `md`: before 1.6 the element is
/// skipped and `md` kept.
pub open spec fn metadata_read_spec(toks: Seq<Token>, pos: int, version: Version, md: MetadataModel) -> Result<
    (MetadataModel, int),
    ParseError,
> {
    if !version_ge(version, Version(1, 6, 0, 0)) {
        match skip_spec(toks, pos, 0) {
            Ok(p) => Ok((md, p)),
            Err(e) => Err(e),
        }
    } else {
        metadata_spec(toks, pos, md)
    }
}

/// Reads `Metadata`, which documents from 1.6 on hold; earlier ones have it
/// skipped.
pub(crate) fn read_metadata(toks: &Vec<Token>, pos: usize, version: Version, md: &mut Metadata) -> (r:
    Result<usize, ParseError>)
    requires
        well_ended(toks@),
        pos < toks@.len(),
    ensures
        !version_ge(version, Version(1, 6, 0, 0)) ==> final(md).model() == old(md).model(),
        r matches Ok(p) ==> metadata_read_spec(toks@, pos as int, version, old(md).model())
            == Ok::<(MetadataModel, int), ParseError>((final(md).model(), p as int)) && pos < p
            < toks@.len(),
        r matches Err(e) ==> metadata_read_spec(toks@, pos as int, version, old(md).model())
            == Err::<(MetadataModel, int), ParseError>(e),
{
    if !version.at_least(&Version(1, 6, 0, 0)) {
        return skip_element(toks, pos);
    }
    let mut i: usize = pos;
    while i < toks.len()
        invariant
            well_ended(toks@),
            pos <= i <= toks@.len(),
            version_ge(version, Version(1, 6, 0, 0)),
            metadata_spec(toks@, pos as int, old(md).model()) == metadata_spec(
                toks@,
                i as int,
                md.model(),
            ),
        decreases toks.len() - i,
    {
        match &toks[i] {
            Token::Open { name, attributes, malformed } => {
                if name_is(name, "Run") {
                    let id = required_attribute(attributes, *malformed, "id")?;
                    let p = skip_element(toks, i + 1)?;
                    md.run_id = id;
                    i = p;
                } else if name_is(name, "Platform") {
                    let emu = match attribute(attributes, *malformed, "usesEmulator")? {
                        Some(v) => parse_bool(v.as_str())?,
                        None => md.uses_emulator,
                    };
                    let (t, p) = read_text(toks, i + 1)?;
                    md.uses_emulator = emu;
                    md.platform_name = t;
                    i = p;
                } else if name_is(name, "Region") {
                    let (t, p) = read_text(toks, i + 1)?;
                    md.region_name = t;
                    i = p;
                } else if name_is(name, "Variables") {
                    i = read_variables(toks, i + 1, &mut md.variables)?;
                } else {
                    i = skip_element(toks, i + 1)?;
                }
            },
            Token::Close => {
                if i + 1 >= toks.len() {
                    assert(toks@[i as int] is Close);
                }
                return Ok(i + 1);
            },
            Token::Text(_) => {
                i = i + 1;
            },
            Token::Eof => {
                return Err(ParseError::UnexpectedEndOfInput);
            },
            Token::Fault => {
                return Err(ParseError::Xml);
            },
        }
    }
    Err(ParseError::UnexpectedEndOfInput)
}

/// The segments and custom comparison names read from the children of
/// `Segments` at `pos` on: each `Segment` is appended.
pub open spec fn segments_spec(
    toks: Seq<Token>,
    pos: int,
    split_times: bool,
    new_times: bool,
    segs: Seq<SegmentModel>,
    ns: Seq<Seq<char>>,
) -> Result<(Seq<SegmentModel>, Seq<Seq<char>>, int), ParseError>
    decreases toks.len() - pos,
{
    if pos < 0 || pos >= toks.len() {
        Err(ParseError::UnexpectedEndOfInput)
    } else {
        match toks[pos] {
            Token::Open { name, .. } => {
                let step: Result<(Seq<SegmentModel>, Seq<Seq<char>>, int), ParseError> = if named(
                    name@,
                    "Segment",
                ) {
                    match segment_spec(toks, pos + 1, split_times, new_times, empty_segment(), ns) {
                        Ok((seg, ns2, p)) => Ok((segs.push(seg), ns2, p)),
                        Err(e) => Err(e),
                    }
                } else {
                    match skip_spec(toks, pos + 1, 0) {
                        Ok(p) => Ok((segs, ns, p)),
                        Err(e) => Err(e),
                    }
                };
                match step {
                    Err(e) => Err(e),
                    Ok((segs2, ns2, p)) => if pos < p <= toks.len() {
                        segments_spec(toks, p, split_times, new_times, segs2, ns2)
                    } else {
                        Err(ParseError::Xml)
                    },
                }
            },
            Token::Close => Ok((segs, ns, pos + 1)),
            Token::Text(_) => segments_spec(toks, pos + 1, split_times, new_times, segs, ns),
            Token::Eof => Err(ParseError::UnexpectedEndOfInput),
            Token::Fault => Err(ParseError::Xml),
        }
    }
}

/// The children of `Segments`: each `Segment` is read and appended.
fn read_segments(toks: &Vec<Token>, pos: usize, version: Version, run: &mut Run) -> (r: Result<
    usize,
    ParseError,
>)
    requires
        well_ended(toks@),
        pos < toks@.len(),
        old(run).wf(),
    ensures
        r is Ok ==> final(run).wf(),
        r matches Ok(p) ==> {
            &&& segments_spec(
                toks@,
                pos as int,
                version_ge(version, Version(1, 3, 0, 0)),
                version_ge(version, Version(1, 4, 1, 0)),
                old(run).model().segments,
                old(run).model().custom_comparisons,
            ) == Ok::<(Seq<SegmentModel>, Seq<Seq<char>>, int), ParseError>(
                (final(run).model().segments, final(run).model().custom_comparisons, p as int),
            )
            &&& final(run).model() == (RunModel {
                segments: final(run).model().segments,
                custom_comparisons: final(run).model().custom_comparisons,
                ..old(run).model()
            })
            &&& pos < p < toks@.len()
        },
        r matches Err(e) ==> segments_spec(
            toks@,
            pos as int,
            version_ge(version, Version(1, 3, 0, 0)),
            version_ge(version, Version(1, 4, 1, 0)),
            old(run).model().segments,
            old(run).model().custom_comparisons,
        ) == Err::<(Seq<SegmentModel>, Seq<Seq<char>>, int), ParseError>(e),
{
    let split_times = version.at_least(&Version(1, 3, 0, 0));
    let new_times = version.at_least(&Version(1, 4, 1, 0));
    let mut i: usize = pos;
    while i < toks.len()
        invariant
            well_ended(toks@),
            pos <= i <= toks@.len(),
            run.wf(),
            split_times == version_ge(version, Version(1, 3, 0, 0)),
            new_times == version_ge(version, Version(1, 4, 1, 0)),
            run.model() == (RunModel {
                segments: run.model().segments,
                custom_comparisons: run.model().custom_comparisons,
                ..old(run).model()
            }),
            segments_spec(
                toks@,
                pos as int,
                split_times,
                new_times,
                old(run).model().segments,
                old(run).model().custom_comparisons,
            ) == segments_spec(
                toks@,
                i as int,
                split_times,
                new_times,
                run.model().segments,
                run.model().custom_comparisons,
            ),
        decreases toks.len() - i,
    {
        match &toks[i] {
            Token::Open { name, .. } => {
                if name_is(name, "Segment") {
                    let ghost custom0 = run.custom_comparisons@;
                    let (seg, p) = read_segment(toks, i + 1, version, &mut run.custom_comparisons)?;
                    let ghost before = run.segments@;
                    proof {
                        lemma_register_segment(before, custom0, seg, run.custom_comparisons@);
                    }
                    run.segments.push(seg);
                    assert(segment_models(run.segments@) =~= segment_models(before).push(
                        seg.model(),
                    ));
                    i = p;
                } else {
                    i = skip_element(toks, i + 1)?;
                }
            },
            Token::Close => {
                if i + 1 >= toks.len() {
                    assert(toks@[i as int] is Close);
                }
                return Ok(i + 1);
            },
            Token::Text(_) => {
                i = i + 1;
            },
            Token::Eof => {
                return Err(ParseError::UnexpectedEndOfInput);
            },
            Token::Fault => {
                return Err(ParseError::Xml);
            },
        }
    }
    Err(ParseError::UnexpectedEndOfInput)
}

/// An attempt count: an unsigned 32-bit integer.
pub open spec fn count_spec(s: Seq<char>) -> Result<u32, ParseError> {
    match unsigned_value(s) {
        Some(v) => if v <= u32::MAX {
            Ok(v as u32)
        } else {
            Err(ParseError::IntegerFormat)
        },
        None => Err(ParseError::IntegerFormat),
    }
}

/// What a child of the root `Run` element holding one value (icon, names,
/// offset, attempt count), named `name` and opened at `pos`, does to `run`.
#[verifier::opaque]
pub open spec fn run_value_child_spec(toks: Seq<Token>, pos: int, name: Seq<u8>, run: RunModel) -> Result<
    (RunModel, int),
    ParseError,
> {
    if named(name, "GameIcon") {
        match image_read_spec(toks, pos + 1) {
            Ok((b, p)) => Ok((RunModel { game_icon: b, ..run }, p)),
            Err(e) => Err(e),
        }
    } else if named(name, "GameName") {
        match text_spec(toks, pos + 1) {
            Ok((t, p)) => Ok((RunModel { game_name: t, ..run }, p)),
            Err(e) => Err(e),
        }
    } else if named(name, "CategoryName") {
        match text_spec(toks, pos + 1) {
            Ok((t, p)) => Ok((RunModel { category_name: t, ..run }, p)),
            Err(e) => Err(e),
        }
    } else if named(name, "Offset") {
        match span_spec(toks, pos + 1) {
            Ok((t, p)) => Ok((RunModel { offset: t, ..run }, p)),
            Err(e) => Err(e),
        }
    } else if named(name, "AttemptCount") {
        match text_spec(toks, pos + 1) {
            Ok((t, p)) => match count_spec(t) {
                Ok(c) => Ok((RunModel { attempt_count: c, ..run }, p)),
                Err(e) => Err(e),
            },
            Err(e) => Err(e),
        }
    } else {
        Err(ParseError::Xml)
    }
}

/// What any other child of the root `Run` element, named `name` and opened
/// at `pos`, does to `run`: histories, metadata and segments are read, the
/// rest is skipped.
#[verifier::opaque]
pub open spec fn run_part_child_spec(toks: Seq<Token>, pos: int, name: Seq<u8>, version: Version, run: RunModel) -> Result<
    (RunModel, int),
    ParseError,
> {
    if named(name, "AttemptHistory") {
        match attempt_history_read_spec(toks, pos + 1, version, run.attempt_history) {
            Ok((a, p)) => Ok((RunModel { attempt_history: a, ..run }, p)),
            Err(e) => Err(e),
        }
    } else if named(name, "RunHistory") {
        match run_history_read_spec(toks, pos + 1, version, run.attempt_history) {
            Ok((a, p)) => Ok((RunModel { attempt_history: a, ..run }, p)),
            Err(e) => Err(e),
        }
    } else if named(name, "Metadata") {
        match metadata_read_spec(toks, pos + 1, version, run.metadata) {
            Ok((m, p)) => Ok((RunModel { metadata: m, ..run }, p)),
            Err(e) => Err(e),
        }
    } else if named(name, "Segments") {
        match segments_spec(
            toks,
            pos + 1,
            version_ge(version, Version(1, 3, 0, 0)),
            version_ge(version, Version(1, 4, 1, 0)),
            run.segments,
            run.custom_comparisons,
        ) {
            Ok((segs, ns, p)) => Ok((RunModel { segments: segs, custom_comparisons: ns, ..run }, p)),
            Err(e) => Err(e),
        }
    } else {
        match skip_spec(toks, pos + 1, 0) {
            Ok(p) => Ok((run, p)),
            Err(e) => Err(e),
        }
    }
}


/// Whether a child of the root `Run` element with this name holds one value.
pub open spec fn is_value_child(name: Seq<u8>) -> bool {
    named(name, "GameIcon") || named(name, "GameName") || named(name, "CategoryName") || named(
        name,
        "Offset",
    ) || named(name, "AttemptCount")
}

/// What one child of the root `Run` element, named `name` and opened at
/// `pos`, does to `run`, and where the child ends.
#[verifier::opaque]
pub open spec fn run_child_spec(toks: Seq<Token>, pos: int, name: Seq<u8>, version: Version, run: RunModel) -> Result<
    (RunModel, int),
    ParseError,
> {
    if is_value_child(name) {
        run_value_child_spec(toks, pos, name, run)
    } else {
        run_part_child_spec(toks, pos, name, version, run)
    }
}

/// The run read from the children of the root `Run` element at `pos` on,
/// starting from `run`, under the document's version.
pub open spec fn run_body_spec(toks: Seq<Token>, pos: int, version: Version, run: RunModel) -> Result<
    (RunModel, int),
    ParseError,
>
    decreases toks.len() - pos,
{
    if pos < 0 || pos >= toks.len() {
        Err(ParseError::UnexpectedEndOfInput)
    } else {
        match toks[pos] {
            Token::Open { name, .. } => match run_child_spec(toks, pos, name@, version, run) {
                Err(e) => Err(e),
                Ok((run2, p)) => if pos < p <= toks.len() {
                    run_body_spec(toks, p, version, run2)
                } else {
                    Err(ParseError::Xml)
                },
            },
            Token::Close => Ok((run, pos + 1)),
            Token::Text(_) => run_body_spec(toks, pos + 1, version, run),
            Token::Eof => Err(ParseError::UnexpectedEndOfInput),
            Token::Fault => Err(ParseError::Xml),
        }
    }
}

/// Reads a child of the root `Run` element that holds one value.
#[verifier::rlimit(50)]
fn read_run_value_child(toks: &Vec<Token>, pos: usize, name: &Vec<u8>, run: &mut Run) -> (r: Result<
    usize,
    ParseError,
>)
    requires
        well_ended(toks@),
        pos + 1 < toks@.len(),
        old(run).wf(),
    ensures
        final(run).wf(),
        r matches Ok(p) ==> run_value_child_spec(toks@, pos as int, name@, old(run).model())
            == Ok::<(RunModel, int), ParseError>((final(run).model(), p as int)) && pos < p
            < toks@.len(),
        r matches Err(e) ==> run_value_child_spec(toks@, pos as int, name@, old(run).model())
            == Err::<(RunModel, int), ParseError>(e),
{
    reveal(run_value_child_spec);
    let n = toks.len();
    let i = pos;
    if name_is(name, "GameIcon") {
        match read_image(toks, i + 1) {
            Ok((b, p)) => {
                run.game_icon = b;
                Ok(p)
            },
            Err(e) => Err(e),
        }
    } else if name_is(name, "GameName") {
        match read_text(toks, i + 1) {
            Ok((t, p)) => {
                run.game_name = t;
                Ok(p)
            },
            Err(e) => Err(e),
        }
    } else if name_is(name, "CategoryName") {
        match read_text(toks, i + 1) {
            Ok((t, p)) => {
                run.category_name = t;
                Ok(p)
            },
            Err(e) => Err(e),
        }
    } else if name_is(name, "Offset") {
        match read_span(toks, i + 1) {
            Ok((t, p)) => {
                run.offset = t;
                Ok(p)
            },
            Err(e) => Err(e),
        }
    } else if name_is(name, "AttemptCount") {
        match read_text(toks, i + 1) {
            Ok((t, p)) => {
                let cs = chars_of(t.as_str());
                assert(cs@.subrange(0, cs@.len() as int) =~= cs@);
                match unsigned_in(&cs, 0, cs.len()) {
                    Ok(c) => {
                        run.attempt_count = c;
                        Ok(p)
                    },
                    Err(e) => Err(e),
                }
            },
            Err(e) => Err(e),
        }
    } else {
        Err(ParseError::Xml)
    }
}

/// Reads any other child of the root `Run` element.
#[verifier::rlimit(50)]
fn read_run_part_child(toks: &Vec<Token>, pos: usize, name: &Vec<u8>, version: Version, run: &mut Run) -> (r:
    Result<usize, ParseError>)
    requires
        well_ended(toks@),
        pos + 1 < toks@.len(),
        old(run).wf(),
    ensures
        r is Ok ==> final(run).wf(),
        r matches Ok(p) ==> run_part_child_spec(toks@, pos as int, name@, version, old(run).model())
            == Ok::<(RunModel, int), ParseError>((final(run).model(), p as int)) && pos < p
            < toks@.len(),
        r matches Err(e) ==> run_part_child_spec(toks@, pos as int, name@, version, old(run).model())
            == Err::<(RunModel, int), ParseError>(e),
{
    reveal(run_part_child_spec);
    let n = toks.len();
    let i = pos;
    if name_is(name, "AttemptHistory") {
        read_attempt_history(toks, i + 1, version, &mut run.attempt_history)
    } else if name_is(name, "RunHistory") {
        read_run_history(toks, i + 1, version, &mut run.attempt_history)
    } else if name_is(name, "Metadata") {
        read_metadata(toks, i + 1, version, &mut run.metadata)
    } else if name_is(name, "Segments") {
        read_segments(toks, i + 1, version, run)
    } else {
        skip_element(toks, i + 1)
    }
}

/// Reads one child of the root `Run` element, named `name` and opened at
/// `pos`.
fn read_run_child(toks: &Vec<Token>, pos: usize, name: &Vec<u8>, version: Version, run: &mut Run) -> (r:
    Result<usize, ParseError>)
    requires
        well_ended(toks@),
        pos + 1 < toks@.len(),
        old(run).wf(),
    ensures
        r is Ok ==> final(run).wf(),
        r matches Ok(p) ==> run_child_spec(toks@, pos as int, name@, version, old(run).model())
            == Ok::<(RunModel, int), ParseError>((final(run).model(), p as int)) && pos < p
            < toks@.len(),
        r matches Err(e) ==> run_child_spec(toks@, pos as int, name@, version, old(run).model())
            == Err::<(RunModel, int), ParseError>(e),
{
    reveal(run_child_spec);
    if name_is(name, "GameIcon") || name_is(name, "GameName") || name_is(name, "CategoryName")
        || name_is(name, "Offset") || name_is(name, "AttemptCount") {
        read_run_value_child(toks, pos, name, run)
    } else {
        read_run_part_child(toks, pos, name, version, run)
    }
}

/// Reads the children of the root `Run` element.
fn read_run_body(toks: &Vec<Token>, pos: usize, version: Version, run: &mut Run) -> (r: Result<
    usize,
    ParseError,
>)
    requires
        well_ended(toks@),
        pos < toks@.len(),
        old(run).wf(),
    ensures
        r is Ok ==> final(run).wf(),
        r matches Ok(p) ==> run_body_spec(toks@, pos as int, version, old(run).model()) == Ok::<
            (RunModel, int),
            ParseError,
        >((final(run).model(), p as int)) && pos < p < toks@.len(),
        r matches Err(e) ==> run_body_spec(toks@, pos as int, version, old(run).model()) == Err::<
            (RunModel, int),
            ParseError,
        >(e),
{
    let mut i: usize = pos;
    while i < toks.len()
        invariant
            well_ended(toks@),
            pos <= i <= toks@.len(),
            run.wf(),
            run_body_spec(toks@, pos as int, version, old(run).model()) == run_body_spec(
                toks@,
                i as int,
                version,
                run.model(),
            ),
        decreases toks.len() - i,
    {
        match &toks[i] {
            Token::Open { name, .. } => {
                if i + 1 >= toks.len() {
                    assert(toks@[i as int] is Open);
                }
                i = read_run_child(toks, i, name, version, run)?;
            },
            Token::Close => {
                if i + 1 >= toks.len() {
                    assert(toks@[i as int] is Close);
                }
                return Ok(i + 1);
            },
            Token::Text(_) => {
                i = i + 1;
            },
            Token::Eof => {
                return Err(ParseError::UnexpectedEndOfInput);
            },
            Token::Fault => {
                return Err(ParseError::Xml);
            },
        }
    }
    Err(ParseError::UnexpectedEndOfInput)
}

/// The version of the root element with attributes `attrs`: where there is
/// no `version` attribute, 1.0.0.0.
pub open spec fn root_version_spec(attrs: Seq<Attribute>, malformed: bool) -> Result<Version, ParseError> {
    match attr_spec(attrs, malformed, "version", 0) {
        Err(e) => Err(e),
        Ok(None) => Ok(Version(1, 0, 0, 0)),
        Ok(Some(v)) => match version_of(v) {
            Some(ver) => Ok(ver),
            None => Err(ParseError::IntegerFormat),
        },
    }
}

/// The run that a document's tokens from `pos` on give: the first element
/// decides; where it is `Run` its children are read under its version, any
/// other gives an empty run.
pub open spec fn document_spec(toks: Seq<Token>, pos: int) -> Result<RunModel, ParseError>
    decreases toks.len() - pos,
{
    if pos < 0 || pos >= toks.len() {
        Err(ParseError::UnexpectedEndOfInput)
    } else {
        match toks[pos] {
            Token::Open { name, attributes, malformed } => if named(name@, "Run") {
                match root_version_spec(attributes@, malformed) {
                    Err(e) => Err(e),
                    Ok(ver) => match run_body_spec(toks, pos + 1, ver, empty_run()) {
                        Ok((r, _)) => Ok(r),
                        Err(e) => Err(e),
                    },
                }
            } else {
                Ok(empty_run())
            },
            Token::Eof => Err(ParseError::UnexpectedEndOfInput),
            Token::Fault => Err(ParseError::Xml),
            _ => document_spec(toks, pos + 1),
        }
    }
}

/// Reads a run from a document's token list. A first element other than
/// `Run` gives an empty run.
pub fn parse_tokens(toks: &Vec<Token>) -> (r: Result<Run, ParseError>)
    requires
        well_ended(toks@),
    ensures
        r matches Ok(run) ==> document_spec(toks@, 0) == Ok::<RunModel, ParseError>(run.model())
            && run.wf(),
        r matches Err(e) ==> document_spec(toks@, 0) == Err::<RunModel, ParseError>(e),
{
    let mut run = Run::new();
    proof {
        assert(string_views(run.custom_comparisons@) =~= Seq::<Seq<char>>::empty());
    }
    let mut i: usize = 0;
    while i < toks.len()
        invariant
            well_ended(toks@),
            i <= toks@.len(),
            run.wf(),
            run.model() == empty_run(),
            document_spec(toks@, 0) == document_spec(toks@, i as int),
        decreases toks.len() - i,
    {
        match &toks[i] {
            Token::Open { name, attributes, malformed } => {
                if name_is(name, "Run") {
                    let version = match attribute(attributes, *malformed, "version")? {
                        Some(v) => parse_version(v.as_str())?,
                        None => Version::initial(),
                    };
                    assert(root_version_spec(attributes@, *malformed) == Ok::<Version, ParseError>(
                        version,
                    ));
                    if i + 1 >= toks.len() {
                        assert(toks@[i as int] is Open);
                    }
                    let ghost before = run.model();
                    let p = read_run_body(toks, i + 1, version, &mut run)?;
                    assert(run_body_spec(toks@, i + 1, version, empty_run()) == Ok::<
                        (RunModel, int),
                        ParseError,
                    >((run.model(), p as int)));
                    assert(document_spec(toks@, i as int) == Ok::<RunModel, ParseError>(
                        run.model(),
                    ));
                } else {
                    assert(document_spec(toks@, i as int) == Ok::<RunModel, ParseError>(
                        empty_run(),
                    ));
                }
                return Ok(run);
            },
            Token::Eof => {
                return Err(ParseError::UnexpectedEndOfInput);
            },
            Token::Fault => {
                return Err(ParseError::Xml);
            },
            _ => {
                i = i + 1;
            },
        }
    }
    Err(ParseError::UnexpectedEndOfInput)
}

/// Reads a save file: its markup events, then the run they give. The run
/// carries `path` where it is read whole; any error anywhere in the document
/// gives that error and no run.
pub fn parse(source: &[u8], path: Option<String>) -> (r: Result<Run, ParseError>)
    ensures
        r matches Ok(run) ==> document_spec(tokens_of(source@), 0) == Ok::<RunModel, ParseError>(
            run.model(),
        ) && run.path == path && run.wf(),
        r matches Err(e) ==> document_spec(tokens_of(source@), 0) == Err::<RunModel, ParseError>(e),
{
    let toks = tokenize(source);
    let mut run = parse_tokens(&toks)?;
    run.path = path;
    Ok(run)
}

/// A segment history entry, a legacy run history entry or a split time
/// without its required attribute (`id`, or `name`) fails the read with
/// `AttributeNotFound`.
pub proof fn law_entry_without_id_fails(toks: Seq<Token>, pos: int, new_times: bool)
    requires
        0 <= pos < toks.len(),
        toks[pos] matches Token::Open { attributes, malformed, .. } && attr_spec(
            attributes@,
            malformed,
            "id",
            0,
        ) == Ok::<Option<Seq<char>>, ParseError>(None),
    ensures
        forall|h: Seq<(i32, Time)>|
            #![trigger history_spec(toks, pos, new_times, h)]
            history_spec(toks, pos, new_times, h) == Err::<(Seq<(i32, Time)>, int), ParseError>(
                ParseError::AttributeNotFound,
            ),
        forall|a: Seq<Attempt>|
            #![trigger run_history_spec(toks, pos, new_times, a)]
            run_history_spec(toks, pos, new_times, a) == Err::<(Seq<Attempt>, int), ParseError>(
                ParseError::AttributeNotFound,
            ),
{
}

/// A split time without its `name` fails the read with `AttributeNotFound`.
pub proof fn law_split_time_without_name_fails(toks: Seq<Token>, pos: int, new_times: bool)
    requires
        0 <= pos < toks.len(),
        toks[pos] matches Token::Open { name, attributes, malformed } && named(name@, "SplitTime")
            && attr_spec(attributes@, malformed, "name", 0) == Ok::<
            Option<Seq<char>>,
            ParseError,
        >(None),
    ensures
        forall|cs: Seq<(Seq<char>, Time)>, ns: Seq<Seq<char>>|
            #![trigger split_times_spec(toks, pos, new_times, cs, ns)]
            split_times_spec(toks, pos, new_times, cs, ns) == Err::<
                (Seq<(Seq<char>, Time)>, Seq<Seq<char>>, int),
                ParseError,
            >(ParseError::AttributeNotFound),
{
}

/// From 1.5 on, a `RunHistory` adds no attempt: attempts come from
/// `AttemptHistory` alone. Before 1.5, an `AttemptHistory` adds none.
pub proof fn law_history_kind_follows_version(
    toks: Seq<Token>,
    pos: int,
    version: Version,
    a: Seq<Attempt>,
)
    ensures
        version_ge(version, Version(1, 5, 0, 0)) ==> (run_history_read_spec(toks, pos, version, a)
            matches Ok((b, _)) ==> b == a),
        !version_ge(version, Version(1, 5, 0, 0)) ==> (attempt_history_read_spec(
            toks,
            pos,
            version,
            a,
        ) matches Ok((b, _)) ==> b == a),
{
}

/// Before 1.3 a segment gets no comparison times and registers no custom
/// comparison, whatever `SplitTimes` it holds; from 1.3 on it gets no legacy
/// personal best split time.
pub proof fn law_split_times_follow_version(
    toks: Seq<Token>,
    pos: int,
    split_times: bool,
    new_times: bool,
    seg: SegmentModel,
    ns: Seq<Seq<char>>,
)
    requires
        !split_times ==> seg.comparisons.len() == 0,
        split_times ==> seg.personal_best_split_time is None,
    ensures
        segment_spec(toks, pos, split_times, new_times, seg, ns) matches Ok((s, ns2, _)) ==> (
        !split_times ==> s.comparisons.len() == 0 && ns2 == ns) && (split_times
            ==> s.personal_best_split_time is None),
    decreases toks.len() - pos,
{
    if 0 <= pos < toks.len() {
        match toks[pos] {
            Token::Open { name, .. } => {
                let step: Result<(SegmentModel, Seq<Seq<char>>, int), ParseError> = if named(
                    name@,
                    "Name",
                ) {
                    match text_spec(toks, pos + 1) {
                        Ok((t, p)) => Ok((SegmentModel { name: t, ..seg }, ns, p)),
                        Err(e) => Err(e),
                    }
                } else if named(name@, "Icon") {
                    match image_read_spec(toks, pos + 1) {
                        Ok((b, p)) => Ok((SegmentModel { icon: b, ..seg }, ns, p)),
                        Err(e) => Err(e),
                    }
                } else if named(name@, "SplitTimes") && split_times {
                    match split_times_spec(toks, pos + 1, new_times, seg.comparisons, ns) {
                        Ok((cs, ns2, p)) => Ok((SegmentModel { comparisons: cs, ..seg }, ns2, p)),
                        Err(e) => Err(e),
                    }
                } else if named(name@, "PersonalBestSplitTime") && !split_times {
                    match legacy_time_spec(toks, pos + 1) {
                        Ok((t, p)) => Ok(
                            (SegmentModel { personal_best_split_time: Some(t), ..seg }, ns, p),
                        ),
                        Err(e) => Err(e),
                    }
                } else if named(name@, "BestSegmentTime") {
                    match versioned_time_spec(toks, pos + 1, new_times) {
                        Ok((t, p)) => Ok((SegmentModel { best_segment_time: t, ..seg }, ns, p)),
                        Err(e) => Err(e),
                    }
                } else if named(name@, "SegmentHistory") {
                    match history_spec(toks, pos + 1, new_times, seg.segment_history) {
                        Ok((h, p)) => Ok((SegmentModel { segment_history: h, ..seg }, ns, p)),
                        Err(e) => Err(e),
                    }
                } else {
                    match skip_spec(toks, pos + 1, 0) {
                        Ok(p) => Ok((seg, ns, p)),
                        Err(e) => Err(e),
                    }
                };
                if let Ok((seg2, ns2, p)) = step {
                    if pos < p <= toks.len() {
                        law_split_times_follow_version(toks, p, split_times, new_times, seg2, ns2);
                    }
                }
            },
            Token::Text(_) => {
                law_split_times_follow_version(toks, pos + 1, split_times, new_times, seg, ns);
            },
            _ => {},
        }
    }
}

} // verus!
