//! Found parameters and their deduplication, name patterns, and url folding.
use vstd::prelude::*;

use crate::network::utils::{opt_view, InjectionPlace};
use crate::text::{
    chars_of, contains, contains_exec, join, lemma_split_at_least_two, lowercase, split, split_exec,
    str_eq, string_from_chars, to_lowercase, views,
};
use crate::utils::{is_random_word, paint, painted, random_line, Color};
use vstd::string::StringSliceAdditionalSpecFns;

verus! {

/// Whether the page's body and the reflections stay the same between requests
/// with random parameters.
pub struct Stable {
    pub body: bool,
    pub reflections: bool,
}

impl Default for Stable {
    fn default() -> (r: Self)
        ensures
            !r.body,
            !r.reflections,
    {
        Stable { body: false, reflections: false }
    }
}

/// Why a parameter was reported.
#[derive(Clone, Copy, Debug, PartialEq, Eq, Structural)]
pub enum ReasonKind {
    /// It changes the status code.
    Code,
    /// It changes the page.
    Text,
    /// It changes the number of reflections of its value.
    Reflected,
    /// It is the only parameter of a request whose reflections changed without it being reflected.
    NotReflected,
}

/// A parameter that was found.
#[derive(Clone, Debug)]
pub struct FoundParameter {
    pub name: String,
    /// `None` when the parameter was sent with a random value.
    pub value: Option<String>,
    /// The changes of the page it caused, joined by `|`.
    pub diffs: String,
    pub status: u16,
    pub size: usize,
    pub reason_kind: ReasonKind,
}

/// A found parameter as values.
pub struct FoundParameterView {
    pub name: Seq<char>,
    pub value: Option<Seq<char>>,
    pub diffs: Seq<char>,
    pub status: u16,
    pub size: usize,
    pub reason_kind: ReasonKind,
}

impl View for FoundParameter {
    type V = FoundParameterView;

    open spec fn view(&self) -> FoundParameterView {
        FoundParameterView {
            name: self.name@,
            value: opt_view(self.value),
            diffs: self.diffs@,
            status: self.status,
            size: self.size,
            reason_kind: self.reason_kind,
        }
    }
}

/// The views of found parameters.
pub open spec fn param_views(s: Seq<FoundParameter>) -> Seq<FoundParameterView> {
    s.map_values(|p: FoundParameter| p@)
}

/// A name given as `name=value` is the text before the first `=` with the text between
/// the first and the second `=` as its value; another name has no value.
pub open spec fn name_and_value(name: Seq<char>) -> (Seq<char>, Option<Seq<char>>) {
    if contains(name, seq!['=']) {
        let parts = split(name, seq!['=']);
        (parts[0], Some(parts[1]))
    } else {
        (name, None)
    }
}

/// A name `a=b` without any other `=` gives the name `a` and the value `b`; a name
/// without `=` is kept whole, with no value.
#[verifier::rlimit(40)]
pub proof fn lemma_name_and_value(a: Seq<char>, b: Seq<char>)
    requires
        !a.contains('='),
        !b.contains('='),
    ensures
        name_and_value(a + seq!['='] + b) == (a, Some(b)),
        name_and_value(a) == (a, None::<Seq<char>>),
{
    let s = a + seq!['='] + b;
    crate::text::lemma_split_once(a, b, '=');
    crate::text::lemma_contains_char(a, '=');
    assert(s[a.len() as int] == '=');
    crate::text::lemma_contains_char(s, '=');
    assert(contains(s, seq!['=']));
    assert(split(s, seq!['=']) == seq![a, b]);
    assert(seq![a, b][0] == a && seq![a, b][1] == b);
}

/// The color a parameter's name is printed in, by why it was reported.
pub open spec fn kind_color(kind: ReasonKind) -> Color {
    match kind {
        ReasonKind::Code => Color::Yellow,
        ReasonKind::Text => Color::BrightYellow,
        ReasonKind::Reflected => Color::BrightBlue,
        ReasonKind::NotReflected => Color::BrightCyan,
    }
}

/// `s` is the parameter's name in the color of why it was found, with `=value` after it
/// when the parameter has its own value.
pub open spec fn colored_param(p: FoundParameterView, s: Seq<char>) -> bool {
    exists|q: Seq<char>|
        #[trigger] painted(p.name, kind_color(p.reason_kind), q) && s == match p.value {
            Some(v) => q + seq!['='] + v,
            None => q,
        }
}

/// The strings as character vectors.
pub fn strings_as_chars(v: &[String]) -> (r: Vec<Vec<char>>)
    ensures
        r@.map_values(|c: Vec<char>| c@) == views(v@),
{
    let mut out: Vec<Vec<char>> = Vec::new();
    let mut i: usize = 0;
    while i < v.len()
        invariant
            i <= v@.len(),
            out@.map_values(|c: Vec<char>| c@) == views(v@).take(i as int),
        decreases v@.len() - i,
    {
        let ghost before = out@.map_values(|c: Vec<char>| c@);
        out.push(chars_of(v[i].as_str()));
        assert(out@.map_values(|c: Vec<char>| c@) =~= before.push(v@[i as int]@));
        assert(views(v@).take(i + 1) =~= views(v@).take(i as int).push(v@[i as int]@));
        i = i + 1;
    }
    assert(views(v@).take(i as int) =~= views(v@));
    out
}

/// A copy of a found parameter.
pub fn copy_parameter(p: &FoundParameter) -> (r: FoundParameter)
    ensures
        r@ == p@,
{
    FoundParameter {
        name: p.name.clone(),
        value: match &p.value {
            Some(v) => Some(v.clone()),
            None => None,
        },
        diffs: p.diffs.clone(),
        status: p.status,
        size: p.size,
        reason_kind: p.reason_kind,
    }
}

impl FoundParameter {
    /// A found parameter; a `name=value` name gives the parameter's name and value
    /// (see `name_and_value`), and the diffs are joined by `|`.
    pub fn new(name: &str, diffs: &[String], status: u16, size: usize, reason_kind: ReasonKind) -> (r:
        Self)
        ensures
            r@.name == name_and_value(name@).0,
            r@.value == name_and_value(name@).1,
            r@.diffs == join(views(diffs@), seq!['|']),
            r.status == status,
            r.size == size,
            r.reason_kind == reason_kind,
    {
        let chars = chars_of(name);
        let eq: [char; 1] = ['='];
        assert(eq@ == seq!['=']);
        let (n, v) = if contains_exec(&chars, &eq) {
            let parts = split_exec(&chars, &eq);
            proof {
                lemma_split_at_least_two(name@, seq!['=']);
            }
            (string_from_chars(&parts[0]), Some(string_from_chars(&parts[1])))
        } else {
            (string_from_chars(&chars), None)
        };
        let bar: [char; 1] = ['|'];
        assert(bar@ == seq!['|']);
        let joined = crate::text::join_exec(&strings_as_chars(diffs), &bar);
        FoundParameter {
            name: n,
            value: v,
            diffs: string_from_chars(&joined),
            status,
            size,
            reason_kind,
        }
    }

    /// The name and the value: the parameter's own value, or a random word.
    pub fn get(&self) -> (r: (String, String))
        ensures
            r.0@ == self.name@,
            match self.value {
                Some(v) => r.1@ == v@,
                None => is_random_word(r.1@, crate::VALUE_LENGTH as nat),
            },
    {
        (
            self.name.clone(),
            match &self.value {
                Some(v) => v.clone(),
                None => random_line(crate::VALUE_LENGTH),
            },
        )
    }

    /// The name in the color of why it was found, with `=value` after it when the
    /// parameter has its own value.
    pub fn get_colored(&self) -> (r: String)
        ensures
            colored_param(self@, r@),
    {
        let color = match self.reason_kind {
            ReasonKind::Code => Color::Yellow,
            ReasonKind::Text => Color::BrightYellow,
            ReasonKind::Reflected => Color::BrightBlue,
            ReasonKind::NotReflected => Color::BrightCyan,
        };
        let mut out = paint(self.name.as_str(), color);
        let ghost p = out@;
        match &self.value {
            Some(v) => {
                out.append("=");
                proof {
                    reveal_strlit("=");
                }
                out.append(v.as_str());
            },
            None => {},
        }
        assert(painted(self@.name, kind_color(self@.reason_kind), p));
        assert(out@ == match self@.value {
            Some(v) => p + seq!['='] + v,
            None => p,
        });
        out
    }
}

/// Some parameter has exactly this name.
pub open spec fn has_name(s: Seq<FoundParameterView>, key: Seq<char>) -> bool {
    exists|i: int| 0 <= i < s.len() && (#[trigger] s[i]).name == key
}

/// Some parameter has this name when both are lowercased.
pub open spec fn has_name_ci(s: Seq<FoundParameterView>, key: Seq<char>) -> bool {
    exists|i: int| 0 <= i < s.len() && lowercase((#[trigger] s[i]).name) == lowercase(key)
}

/// Some parameter has the name, the reason and the status of `el`.
pub open spec fn has_element(s: Seq<FoundParameterView>, el: FoundParameterView) -> bool {
    exists|i: int|
        0 <= i < s.len() && (#[trigger] s[i]).name == el.name && s[i].reason_kind == el.reason_kind
            && s[i].status == el.status
}

/// Some parameter has the reason and the status of `el`, and its name when both are lowercased.
pub open spec fn has_element_ci(s: Seq<FoundParameterView>, el: FoundParameterView) -> bool {
    exists|i: int|
        0 <= i < s.len() && lowercase((#[trigger] s[i]).name) == lowercase(el.name)
            && s[i].reason_kind == el.reason_kind && s[i].status == el.status
}

/// Some parameter found without a value has the name, the reason and the status of `el`.
pub open spec fn has_plain_twin(s: Seq<FoundParameterView>, el: FoundParameterView) -> bool {
    exists|i: int|
        0 <= i < s.len() && (#[trigger] s[i]).value is None && s[i].name == el.name
            && s[i].reason_kind == el.reason_kind && s[i].status == el.status
}

/// A parameter `process` drops first: one whose name holds `=`, and one found with a
/// value (like `admin=true`) whose plain name (`admin`) `all` holds for the same reason
/// and status.
pub open spec fn assignment_dropped(x: FoundParameterView, all: Seq<FoundParameterView>) -> bool {
    contains(x.name, seq!['=']) || (x.value is Some && has_plain_twin(all, x))
}

/// The parameters of `s` without those `assignment_dropped` drops.
pub open spec fn without_assignments(s: Seq<FoundParameterView>, all: Seq<FoundParameterView>) -> Seq<
    FoundParameterView,
>
    decreases s.len(),
{
    if s.len() == 0 {
        Seq::empty()
    } else if assignment_dropped(s.last(), all) {
        without_assignments(s.drop_last(), all)
    } else {
        without_assignments(s.drop_last(), all).push(s.last())
    }
}

/// The parameters of `s` whose names are lowercase or have no lowercase twin in `all`.
pub open spec fn lowercase_preferred(s: Seq<FoundParameterView>, all: Seq<FoundParameterView>) -> Seq<
    FoundParameterView,
>
    decreases s.len(),
{
    if s.len() == 0 {
        Seq::empty()
    } else {
        let x = s.last();
        if lowercase(x.name) == x.name || !has_name(all, lowercase(x.name)) {
            lowercase_preferred(s.drop_last(), all).push(x)
        } else {
            lowercase_preferred(s.drop_last(), all)
        }
    }
}

/// A name with its first character uppercased.
pub open spec fn capitalized(name: Seq<char>) -> Seq<char> {
    if name.len() == 0 {
        name
    } else {
        crate::text::uppercase_char(name[0]) + name.drop_first()
    }
}

/// The parameters with capitalized names.
pub open spec fn with_capitalized_names(s: Seq<FoundParameterView>) -> Seq<FoundParameterView> {
    s.map_values(|p: FoundParameterView| FoundParameterView { name: capitalized(p.name), ..p })
}

/// The parameters without those whose name, lowercased, an earlier one already has.
pub open spec fn first_of_each_name(s: Seq<FoundParameterView>) -> Seq<FoundParameterView>
    decreases s.len(),
{
    if s.len() == 0 {
        Seq::empty()
    } else {
        let d = first_of_each_name(s.drop_last());
        if has_name_ci(d, s.last().name) {
            d
        } else {
            d.push(s.last())
        }
    }
}

/// What `process` keeps of the found parameters: names holding `=` are dropped, and a
/// parameter found with a value is dropped where its plain name was found too (`admin`
/// wins over `admin=true`); of
/// names that differ only in case the lowercase one where it was found; names
/// capitalized for header discovery; and one parameter per name regardless of case.
pub open spec fn processed(s: Seq<FoundParameterView>, place: InjectionPlace) -> Seq<
    FoundParameterView,
> {
    let a = without_assignments(s, s);
    let b = lowercase_preferred(a, a);
    let c = if place == InjectionPlace::Headers {
        with_capitalized_names(b)
    } else {
        b
    };
    first_of_each_name(c)
}

/// No two parameters have the same name when lowercased.
pub open spec fn distinct_names_ci(s: Seq<FoundParameterView>) -> bool {
    forall|i: int, j: int|
        0 <= i < j < s.len() ==> lowercase((#[trigger] s[i]).name) != lowercase((#[trigger] s[j]).name)
}

/// Keeping the first parameter of each name gives distinct names.
proof fn lemma_first_of_each_name_distinct(s: Seq<FoundParameterView>)
    ensures
        distinct_names_ci(first_of_each_name(s)),
    decreases s.len(),
{
    if s.len() > 0 {
        lemma_first_of_each_name_distinct(s.drop_last());
        let d = first_of_each_name(s.drop_last());
        if !has_name_ci(d, s.last().name) {
            let e = d.push(s.last());
            assert forall|i: int, j: int| 0 <= i < j < e.len() implies lowercase(
                (#[trigger] e[i]).name,
            ) != lowercase((#[trigger] e[j]).name) by {
                if j == d.len() {
                    assert(e[i] == d[i]);
                }
            }
        }
    }
}

/// After `process`, no two parameters share a name regardless of case.
pub proof fn lemma_processed_distinct(s: Seq<FoundParameterView>, place: InjectionPlace)
    ensures
        distinct_names_ci(processed(s, place)),
{
    let a = without_assignments(s, s);
    let b = lowercase_preferred(a, a);
    let c = if place == InjectionPlace::Headers {
        with_capitalized_names(b)
    } else {
        b
    };
    lemma_first_of_each_name_distinct(c);
}

/// What is kept of a sequence of parameters was in it; for `without_assignments`
/// it is a parameter that `assignment_dropped` keeps.
proof fn lemma_kept_from(s: Seq<FoundParameterView>, all: Seq<FoundParameterView>)
    ensures
        forall|x: FoundParameterView| #[trigger]
            without_assignments(s, all).contains(x) ==> s.contains(x) && !assignment_dropped(x, all),
        forall|x: FoundParameterView| #[trigger]
            lowercase_preferred(s, all).contains(x) ==> s.contains(x),
        forall|x: FoundParameterView| #[trigger] first_of_each_name(s).contains(x) ==> s.contains(x),
    decreases s.len(),
{
    if s.len() > 0 {
        let d = s.drop_last();
        lemma_kept_from(d, all);
        assert forall|x: FoundParameterView| d.contains(x) implies #[trigger] s.contains(x) by {
            let k = choose|k: int| 0 <= k < d.len() && d[k] == x;
            assert(s[k] == x);
        }
        assert(s[s.len() - 1] == s.last());
        assert(s.contains(s.last()));
        let a = without_assignments(d, all);
        assert forall|x: FoundParameterView| #[trigger] a.push(s.last()).contains(x) implies a.contains(
            x,
        ) || x == s.last() by {
            let k = choose|k: int| 0 <= k < a.len() + 1 && a.push(s.last())[k] == x;
            if k < a.len() {
                assert(a[k] == x);
            }
        }
        let b = lowercase_preferred(d, all);
        assert forall|x: FoundParameterView| #[trigger] b.push(s.last()).contains(x) implies b.contains(
            x,
        ) || x == s.last() by {
            let k = choose|k: int| 0 <= k < b.len() + 1 && b.push(s.last())[k] == x;
            if k < b.len() {
                assert(b[k] == x);
            }
        }
        let c = first_of_each_name(d);
        assert forall|x: FoundParameterView| #[trigger] c.push(s.last()).contains(x) implies c.contains(
            x,
        ) || x == s.last() by {
            let k = choose|k: int| 0 <= k < c.len() + 1 && c.push(s.last())[k] == x;
            if k < c.len() {
                assert(c[k] == x);
            }
        }
    }
}

/// Outside header discovery, `process` reports only parameters it was given, none
/// whose name holds `=`, and none found with a value whose plain name was found for the
/// same reason and status.
pub proof fn lemma_processed_from_input(s: Seq<FoundParameterView>, place: InjectionPlace)
    requires
        place != InjectionPlace::Headers,
    ensures
        forall|x: FoundParameterView| #[trigger]
            processed(s, place).contains(x) ==> s.contains(x) && !contains(x.name, seq!['='])
                && !(x.value is Some && has_plain_twin(s, x)),
{
    let a = without_assignments(s, s);
    let b = lowercase_preferred(a, a);
    lemma_kept_from(s, s);
    lemma_kept_from(a, a);
    lemma_kept_from(b, b);
}

/// `a` is `b` with some elements left out and the others kept in order: `idx` tells
/// where each element of `a` stands in `b`.
pub open spec fn picked_by<A>(a: Seq<A>, b: Seq<A>, idx: Seq<int>) -> bool {
    &&& idx.len() == a.len()
    &&& forall|i: int| 0 <= i < a.len() ==> 0 <= #[trigger] idx[i] < b.len() && a[i] == b[idx[i]]
    &&& forall|i: int, j: int| 0 <= i < j < a.len() ==> #[trigger] idx[i] < #[trigger] idx[j]
}

/// `a` is a subsequence of `b`.
pub open spec fn is_subsequence<A>(a: Seq<A>, b: Seq<A>) -> bool {
    exists|idx: Seq<int>| picked_by(a, b, idx)
}

/// Adding an element to `b` keeps a subsequence, with or without that element.
proof fn lemma_picked_push<A>(a: Seq<A>, b: Seq<A>, idx: Seq<int>, x: A)
    requires
        picked_by(a, b, idx),
    ensures
        picked_by(a.push(x), b.push(x), idx.push(b.len() as int)),
        picked_by(a, b.push(x), idx),
{
    let a2 = a.push(x);
    let b2 = b.push(x);
    let i2 = idx.push(b.len() as int);
    assert forall|i: int| 0 <= i < a2.len() implies 0 <= #[trigger] i2[i] < b2.len() && a2[i]
        == b2[i2[i]] by {
        if i < a.len() {
            assert(i2[i] == idx[i]);
            assert(a2[i] == a[i]);
            assert(b2[idx[i]] == b[idx[i]]);
        }
    }
    assert forall|i: int, j: int| 0 <= i < j < a2.len() implies #[trigger] i2[i] < #[trigger] i2[j] by {
        assert(i2[i] == idx[i]);
        if j < a.len() {
            assert(i2[j] == idx[j]);
        }
    }
    assert forall|i: int| 0 <= i < a.len() implies 0 <= #[trigger] idx[i] < b2.len() && a[i]
        == b2[idx[i]] by {
        assert(b2[idx[i]] == b[idx[i]]);
    }
}

/// A subsequence of a subsequence is a subsequence.
proof fn lemma_picked_compose<A>(a: Seq<A>, b: Seq<A>, c: Seq<A>, i1: Seq<int>, i2: Seq<int>) -> (idx:
    Seq<int>)
    requires
        picked_by(a, b, i1),
        picked_by(b, c, i2),
    ensures
        picked_by(a, c, idx),
{
    let idx = i1.map_values(|k: int| i2[k]);
    assert forall|i: int| 0 <= i < a.len() implies 0 <= #[trigger] idx[i] < c.len() && a[i]
        == c[idx[i]] by {
        assert(idx[i] == i2[i1[i]]);
    }
    assert forall|i: int, j: int| 0 <= i < j < a.len() implies #[trigger] idx[i] < #[trigger] idx[j] by {
        assert(i1[i] < i1[j]);
        assert(idx[i] == i2[i1[i]]);
        assert(idx[j] == i2[i1[j]]);
    }
    idx
}

/// Each step of `process` keeps a subsequence of what it is given.
proof fn lemma_steps_picked(s: Seq<FoundParameterView>, all: Seq<FoundParameterView>) -> (idx: (
    Seq<int>,
    Seq<int>,
    Seq<int>,
))
    ensures
        picked_by(without_assignments(s, all), s, idx.0),
        picked_by(lowercase_preferred(s, all), s, idx.1),
        picked_by(first_of_each_name(s), s, idx.2),
    decreases s.len(),
{
    if s.len() == 0 {
        (Seq::empty(), Seq::empty(), Seq::empty())
    } else {
        let d = s.drop_last();
        let x = s.last();
        assert(d.push(x) =~= s);
        let (j0, j1, j2) = lemma_steps_picked(d, all);
        lemma_picked_push(without_assignments(d, all), d, j0, x);
        lemma_picked_push(lowercase_preferred(d, all), d, j1, x);
        lemma_picked_push(first_of_each_name(d), d, j2, x);
        let k0 = if assignment_dropped(x, all) {
            j0
        } else {
            j0.push(d.len() as int)
        };
        let k1 = if lowercase(x.name) == x.name || !has_name(all, lowercase(x.name)) {
            j1.push(d.len() as int)
        } else {
            j1
        };
        let k2 = if has_name_ci(first_of_each_name(d), x.name) {
            j2
        } else {
            j2.push(d.len() as int)
        };
        (k0, k1, k2)
    }
}

/// Outside header discovery, `process` returns a subsequence of its input: the
/// parameters it keeps are unchanged and in their order.
pub proof fn lemma_processed_subsequence(s: Seq<FoundParameterView>, place: InjectionPlace)
    requires
        place != InjectionPlace::Headers,
    ensures
        is_subsequence(processed(s, place), s),
{
    let a = without_assignments(s, s);
    let b = lowercase_preferred(a, a);
    let c = first_of_each_name(b);
    let ia = lemma_steps_picked(s, s).0;
    let ib = lemma_steps_picked(a, a).1;
    let ic = lemma_steps_picked(b, b).2;
    let iab = lemma_picked_compose(b, a, s, ib, ia);
    let idx = lemma_picked_compose(c, b, s, ic, iab);
    assert(picked_by(processed(s, place), s, idx));
}

/// What each step of `process` keeps: a parameter `assignment_dropped` spares, one whose
/// name is lowercase or has no lowercase twin, and a parameter of each name regardless
/// of case.
proof fn lemma_steps_keep(s: Seq<FoundParameterView>, all: Seq<FoundParameterView>)
    ensures
        forall|x: FoundParameterView|
            s.contains(x) && !assignment_dropped(x, all) ==> #[trigger] without_assignments(
                s,
                all,
            ).contains(x),
        forall|x: FoundParameterView|
            s.contains(x) && (lowercase(x.name) == x.name || !has_name(all, lowercase(x.name)))
                ==> #[trigger] lowercase_preferred(s, all).contains(x),
        forall|x: FoundParameterView|
            #[trigger] s.contains(x) ==> has_name_ci(first_of_each_name(s), x.name),
    decreases s.len(),
{
    if s.len() > 0 {
        let d = s.drop_last();
        let l = s.last();
        lemma_steps_keep(d, all);
        assert forall|x: FoundParameterView| s.contains(x) implies x == l || d.contains(x) by {
            let k = choose|k: int| 0 <= k < s.len() && s[k] == x;
            if k < s.len() - 1 {
                assert(d[k] == x);
            }
        }
        let a = without_assignments(d, all);
        assert forall|x: FoundParameterView| a.contains(x) implies #[trigger] a.push(l).contains(x) by {
            let k = choose|k: int| 0 <= k < a.len() && a[k] == x;
            assert(a.push(l)[k] == x);
        }
        assert(a.push(l)[a.len() as int] == l);
        let b = lowercase_preferred(d, all);
        assert forall|x: FoundParameterView| b.contains(x) implies #[trigger] b.push(l).contains(x) by {
            let k = choose|k: int| 0 <= k < b.len() && b[k] == x;
            assert(b.push(l)[k] == x);
        }
        assert(b.push(l)[b.len() as int] == l);
        let c = first_of_each_name(d);
        assert forall|x: FoundParameterView| #[trigger] s.contains(x) implies has_name_ci(
            first_of_each_name(s),
            x.name,
        ) by {
            if has_name_ci(c, l.name) {
                if x == l {
                } else {
                    assert(d.contains(x));
                }
            } else {
                let e = c.push(l);
                if x == l {
                    assert(e[c.len() as int] == l);
                } else {
                    assert(d.contains(x));
                    let k = choose|k: int| 0 <= k < c.len() && lowercase((#[trigger] c[k]).name)
                        == lowercase(x.name);
                    assert(e[k] == c[k]);
                }
            }
        }
    }
}

/// Outside header discovery, `process` only drops duplicates: for every lowercase name
/// without `=` it was given, a parameter of that name (regardless of case) stays.
pub proof fn lemma_processed_keeps_names(s: Seq<FoundParameterView>, place: InjectionPlace)
    requires
        place != InjectionPlace::Headers,
    ensures
        forall|x: FoundParameterView|
            #[trigger] s.contains(x) && !contains(x.name, seq!['=']) && lowercase(x.name) == x.name
                ==> has_name_ci(processed(s, place), x.name),
{
    let a = without_assignments(s, s);
    let b = lowercase_preferred(a, a);
    lemma_steps_keep(s, s);
    lemma_steps_keep(a, a);
    lemma_steps_keep(b, b);
    assert forall|x: FoundParameterView|
        #[trigger] s.contains(x) && !contains(x.name, seq!['=']) && lowercase(x.name) == x.name
            implies has_name_ci(processed(s, place), x.name) by {
        let y = if !assignment_dropped(x, s) {
            x
        } else {
            let i = choose|i: int|
                0 <= i < s.len() && (#[trigger] s[i]).value is None && s[i].name == x.name
                    && s[i].reason_kind == x.reason_kind && s[i].status == x.status;
            assert(s.contains(s[i]));
            s[i]
        };
        assert(a.contains(y));
        assert(b.contains(y));
    }
}

/// `name` with its first character uppercased.
fn capitalize_first(name: &String) -> (r: String)
    ensures
        r@ == capitalized(name@),
{
    let chars = chars_of(name.as_str());
    if chars.len() == 0 {
        return string_from_chars(&chars);
    }
    let mut out = crate::text::char_to_uppercase(chars[0]);
    let ghost head = out@;
    let mut i: usize = 1;
    while i < chars.len()
        invariant
            1 <= i <= chars@.len(),
            out@ == head + chars@.subrange(1, i as int),
        decreases chars@.len() - i,
    {
        out.push(chars[i]);
        assert(chars@.subrange(1, i + 1) =~= chars@.subrange(1, i as int).push(chars@[i as int]));
        i = i + 1;
    }
    assert(chars@.subrange(1, i as int) =~= chars@.drop_first());
    string_from_chars(&out)
}

/// Whether some parameter found without a value has the name, the reason and the
/// status of `el`.
fn has_plain_twin_exec(v: &Vec<FoundParameter>, el: &FoundParameter) -> (r: bool)
    ensures
        r == has_plain_twin(param_views(v@), el@),
{
    let mut i: usize = 0;
    while i < v.len()
        invariant
            i <= v.len(),
            forall|m: int|
                0 <= m < i ==> !((#[trigger] param_views(v@)[m]).value is None
                    && param_views(v@)[m].name == el@.name && param_views(v@)[m].reason_kind
                    == el.reason_kind && param_views(v@)[m].status == el.status),
        decreases v.len() - i,
    {
        if v[i].value.is_none() && str_eq(v[i].name.as_str(), el.name.as_str()) && v[i].reason_kind
            == el.reason_kind && v[i].status == el.status {
            assert(param_views(v@)[i as int].name == el@.name);
            return true;
        }
        i = i + 1;
    }
    false
}

/// Lookups and deduplication in a list of found parameters.
pub trait Parameters: Sized {
    fn contains_name(&self, key: &str) -> bool;

    fn contains_name_case_insensitive(&self, key: &str) -> bool;

    fn contains_element(&self, el: &FoundParameter) -> bool;

    fn contains_element_case_insensitive(&self, el: &FoundParameter) -> bool;

    fn process(self, injection_place: InjectionPlace) -> Self;
}

impl Parameters for Vec<FoundParameter> {
    /// Whether a parameter has exactly this name.
    fn contains_name(&self, key: &str) -> (r: bool)
        ensures
            r == has_name(param_views(self@), key@),
    {
        let mut i: usize = 0;
        while i < self.len()
            invariant
                i <= self.len(),
                forall|m: int| 0 <= m < i ==> (#[trigger] param_views(self@)[m]).name != key@,
            decreases self.len() - i,
        {
            if str_eq(self[i].name.as_str(), key) {
                assert(param_views(self@)[i as int].name == key@);
                return true;
            }
            i = i + 1;
        }
        false
    }

    /// Whether a parameter has this name when both are lowercased.
    fn contains_name_case_insensitive(&self, key: &str) -> (r: bool)
        ensures
            r == has_name_ci(param_views(self@), key@),
    {
        let lower_key = to_lowercase(key);
        let mut i: usize = 0;
        while i < self.len()
            invariant
                i <= self.len(),
                lower_key@ == lowercase(key@),
                forall|m: int|
                    0 <= m < i ==> lowercase((#[trigger] param_views(self@)[m]).name) != lowercase(
                        key@,
                    ),
            decreases self.len() - i,
        {
            let lower = to_lowercase(self[i].name.as_str());
            if str_eq(lower.as_str(), lower_key.as_str()) {
                assert(lowercase(param_views(self@)[i as int].name) == lowercase(key@));
                return true;
            }
            i = i + 1;
        }
        false
    }

    /// Whether a parameter has the name, the reason and the status of `el`.
    fn contains_element(&self, el: &FoundParameter) -> (r: bool)
        ensures
            r == has_element(param_views(self@), el@),
    {
        let mut i: usize = 0;
        while i < self.len()
            invariant
                i <= self.len(),
                forall|m: int|
                    0 <= m < i ==> !((#[trigger] param_views(self@)[m]).name == el@.name
                        && param_views(self@)[m].reason_kind == el.reason_kind && param_views(
                        self@,
                    )[m].status == el.status),
            decreases self.len() - i,
        {
            if str_eq(self[i].name.as_str(), el.name.as_str()) && self[i].reason_kind
                == el.reason_kind && self[i].status == el.status {
                assert(param_views(self@)[i as int].name == el@.name);
                return true;
            }
            i = i + 1;
        }
        false
    }

    /// Whether a parameter has the reason and the status of `el`, and its name when both
    /// are lowercased.
    fn contains_element_case_insensitive(&self, el: &FoundParameter) -> (r: bool)
        ensures
            r == has_element_ci(param_views(self@), el@),
    {
        let lower_name = to_lowercase(el.name.as_str());
        let mut i: usize = 0;
        while i < self.len()
            invariant
                i <= self.len(),
                lower_name@ == lowercase(el.name@),
                forall|m: int|
                    0 <= m < i ==> !(lowercase((#[trigger] param_views(self@)[m]).name) == lowercase(
                        el@.name,
                    ) && param_views(self@)[m].reason_kind == el.reason_kind && param_views(
                        self@,
                    )[m].status == el.status),
            decreases self.len() - i,
        {
            let lower = to_lowercase(self[i].name.as_str());
            if str_eq(lower.as_str(), lower_name.as_str()) && self[i].reason_kind == el.reason_kind
                && self[i].status == el.status {
                assert(lowercase(param_views(self@)[i as int].name) == lowercase(el@.name));
                return true;
            }
            i = i + 1;
        }
        false
    }

    /// Removes duplicates: `[debug={random}, Debug={random}, debug=true]` gives
    /// `[debug={random}]` (see `processed`).
    fn process(self, injection_place: InjectionPlace) -> (r: Self)
        ensures
            param_views(r@) == processed(param_views(self@), injection_place),
    {
        let ghost sv = param_views(self@);
        let eq: [char; 1] = ['='];
        assert(eq@ == seq!['=']);
        let mut a: Vec<FoundParameter> = Vec::new();
        let mut i: usize = 0;
        while i < self.len()
            invariant
                i <= self.len(),
                sv == param_views(self@),
                eq@ == seq!['='],
                param_views(a@) == without_assignments(sv.take(i as int), sv),
            decreases self.len() - i,
        {
            assert(sv.take(i + 1).drop_last() =~= sv.take(i as int));
            assert(sv.take(i + 1).last() == sv[i as int]);
            let has_eq = contains_exec(&chars_of(self[i].name.as_str()), &eq);
            if !(has_eq || (self[i].value.is_some() && has_plain_twin_exec(&self, &self[i]))) {
                let ghost before = param_views(a@);
                a.push(copy_parameter(&self[i]));
                assert(param_views(a@) =~= before.push(sv[i as int]));
            }
            i = i + 1;
        }
        assert(sv.take(i as int) =~= sv);
        let ghost av = param_views(a@);
        let mut b: Vec<FoundParameter> = Vec::new();
        let mut j: usize = 0;
        while j < a.len()
            invariant
                j <= a.len(),
                av == param_views(a@),
                param_views(b@) == lowercase_preferred(av.take(j as int), av),
            decreases a.len() - j,
        {
            assert(av.take(j + 1).drop_last() =~= av.take(j as int));
            assert(av.take(j + 1).last() == av[j as int]);
            let lower = to_lowercase(a[j].name.as_str());
            if str_eq(lower.as_str(), a[j].name.as_str()) || !a.contains_name(lower.as_str()) {
                let ghost before = param_views(b@);
                b.push(copy_parameter(&a[j]));
                assert(param_views(b@) =~= before.push(av[j as int]));
            }
            j = j + 1;
        }
        assert(av.take(j as int) =~= av);
        let ghost bv = param_views(b@);
        let c: Vec<FoundParameter> = if injection_place == InjectionPlace::Headers {
            let mut c: Vec<FoundParameter> = Vec::new();
            let mut k: usize = 0;
            while k < b.len()
                invariant
                    k <= b.len(),
                    bv == param_views(b@),
                    param_views(c@) == with_capitalized_names(bv.take(k as int)),
                decreases b.len() - k,
            {
                let mut x = copy_parameter(&b[k]);
                x.name = capitalize_first(&b[k].name);
                let ghost before = param_views(c@);
                c.push(x);
                assert(param_views(c@) =~= before.push(
                    FoundParameterView { name: capitalized(bv[k as int].name), ..bv[k as int] },
                ));
                assert(with_capitalized_names(bv.take(k + 1)) =~= with_capitalized_names(
                    bv.take(k as int),
                ).push(FoundParameterView { name: capitalized(bv[k as int].name), ..bv[k as int] }));
                k = k + 1;
            }
            assert(bv.take(k as int) =~= bv);
            c
        } else {
            b
        };
        let ghost cv = param_views(c@);
        let mut found: Vec<FoundParameter> = Vec::new();
        let mut m: usize = 0;
        while m < c.len()
            invariant
                m <= c.len(),
                cv == param_views(c@),
                param_views(found@) == first_of_each_name(cv.take(m as int)),
            decreases c.len() - m,
        {
            assert(cv.take(m + 1).drop_last() =~= cv.take(m as int));
            assert(cv.take(m + 1).last() == cv[m as int]);
            if !found.contains_name_case_insensitive(c[m].name.as_str()) {
                let ghost before = param_views(found@);
                found.push(copy_parameter(&c[m]));
                assert(param_views(found@) =~= before.push(cv[m as int]));
            }
            m = m + 1;
        }
        assert(cv.take(m as int) =~= cv);
        found
    }
}

/// Whether a parameter checked once more is kept: it changes the code, it is
/// reflected, or it changes a page whose body is otherwise stable.
pub fn confirmed(is_code_diff: bool, reflected_count: usize, new_diffs_count: usize, stable_body: bool) -> (r:
    bool)
    ensures
        r == (is_code_diff || reflected_count > 0 || (stable_body && new_diffs_count > 0)),
{
    is_code_diff || reflected_count > 0 || (stable_body && new_diffs_count > 0)
}

/// `name=value` for each found parameter, with a random value where it has none.
pub fn assignments(found: &Vec<FoundParameter>) -> (r: Vec<String>)
    ensures
        r@.len() == found@.len(),
        forall|i: int|
            0 <= i < found@.len() ==> {
                let p = #[trigger] found@[i];
                &&& has_prefix_and_value(r@[i]@, p.name@ + seq!['='], p@.value)
            },
{
    let mut out: Vec<String> = Vec::new();
    let mut i: usize = 0;
    while i < found.len()
        invariant
            i <= found@.len(),
            out@.len() == i,
            forall|m: int|
                0 <= m < i ==> has_prefix_and_value(
                    #[trigger] out@[m]@,
                    found@[m].name@ + seq!['='],
                    found@[m]@.value,
                ),
        decreases found@.len() - i,
    {
        let (k, v) = found[i].get();
        let mut line = k;
        line.append("=");
        proof {
            reveal_strlit("=");
        }
        line.append(v.as_str());
        let ghost plen = (found@[i as int].name@.len() + 1) as int;
        assert(line@.subrange(0, plen) =~= found@[i as int].name@ + seq!['=']);
        assert(line@.skip(plen) =~= v@);
        out.push(line);
        i = i + 1;
    }
    out
}

/// `s` is `prefix` followed by the value, or by a random word where there is no value.
pub open spec fn has_prefix_and_value(s: Seq<char>, prefix: Seq<char>, value: Option<Seq<char>>) -> bool {
    &&& prefix.len() <= s.len()
    &&& s.subrange(0, prefix.len() as int) == prefix
    &&& match value {
        Some(v) => s.skip(prefix.len() as int) == v,
        None => is_random_word(s.skip(prefix.len() as int), crate::VALUE_LENGTH as nat),
    }
}

/// A guess at the shape of a parameter name, to check whether a similar name acts the same.
pub enum ParamPatterns {
    /// `_anything`
    SpecialPrefix(char),
    /// `anything1243124`: the text before the digits and the number of bytes of the digits.
    HasNumbersPostfix(String, usize),
    /// `any!thing`
    ContainsSpecial(char),
    /// `password_anything`
    BeforeUnderscore(String),
    /// `anything_password`
    AfterUnderscore(String),
    /// `password-anything`
    BeforeDash(String),
    /// `anything-password`
    AfterDash(String),
}

/// A name pattern as values; a character is given as a string of one character.
pub enum ParamPatternView {
    SpecialPrefix(Seq<char>),
    HasNumbersPostfix(Seq<char>, nat),
    ContainsSpecial(Seq<char>),
    BeforeUnderscore(Seq<char>),
    AfterUnderscore(Seq<char>),
    BeforeDash(Seq<char>),
    AfterDash(Seq<char>),
}

impl View for ParamPatterns {
    type V = ParamPatternView;

    open spec fn view(&self) -> ParamPatternView {
        match self {
            ParamPatterns::SpecialPrefix(c) => ParamPatternView::SpecialPrefix(seq![*c]),
            ParamPatterns::HasNumbersPostfix(s, n) => ParamPatternView::HasNumbersPostfix(s@, *n as nat),
            ParamPatterns::ContainsSpecial(c) => ParamPatternView::ContainsSpecial(seq![*c]),
            ParamPatterns::BeforeUnderscore(s) => ParamPatternView::BeforeUnderscore(s@),
            ParamPatterns::AfterUnderscore(s) => ParamPatternView::AfterUnderscore(s@),
            ParamPatterns::BeforeDash(s) => ParamPatternView::BeforeDash(s@),
            ParamPatterns::AfterDash(s) => ParamPatternView::AfterDash(s@),
        }
    }
}

/// The name that checks a pattern.
pub open spec fn pattern_check_name(p: ParamPatternView) -> Seq<char> {
    match p {
        ParamPatternView::SpecialPrefix(c) => c + "anything"@,
        ParamPatternView::ContainsSpecial(c) => "anyth"@ + c + "ng"@,
        ParamPatternView::BeforeUnderscore(s) => s + "_anything"@,
        ParamPatternView::AfterUnderscore(s) => "anything_"@ + s,
        ParamPatternView::BeforeDash(s) => s + "-anything"@,
        ParamPatternView::AfterDash(s) => "anything-"@ + s,
        ParamPatternView::HasNumbersPostfix(s, n) => s + crate::text::repeat(seq!['1'], n),
    }
}

/// The views of name patterns.
pub open spec fn pattern_views(v: Seq<ParamPatterns>) -> Seq<ParamPatternView> {
    v.map_values(|p: ParamPatterns| p@)
}

/// The ASCII punctuation of a name other than `-` and `_`.
pub open spec fn special_chars(s: Seq<char>) -> Seq<char>
    decreases s.len(),
{
    if s.len() == 0 {
        Seq::empty()
    } else if crate::text::is_ascii_punctuation(s.last()) && s.last() != '-' && s.last() != '_' {
        special_chars(s.drop_last()).push(s.last())
    } else {
        special_chars(s.drop_last())
    }
}

/// The text before the digits and the number of bytes of the digits, from the groups of
/// a match of `^([^\d]+)(\d+)$`.
pub open spec fn number_postfix(captures: Option<Option<Seq<Option<Seq<char>>>>>) -> Option<
    (Seq<char>, nat),
> {
    match captures {
        Some(Some(g)) => if g.len() > 2 && g[1] is Some && g[2] is Some {
            Some((g[1]->0, vstd::utf8::encode_utf8(g[2]->0).len()))
        } else {
            None
        },
        _ => None,
    }
}

/// `SpecialPrefix` where the name starts with ASCII punctuation.
pub open spec fn prefix_patterns(name: Seq<char>) -> Seq<ParamPatternView> {
    if crate::text::is_ascii_punctuation(name[0]) {
        seq![ParamPatternView::SpecialPrefix(name.take(1))]
    } else {
        Seq::empty()
    }
}

/// `ContainsSpecial` where there is exactly one special character.
pub open spec fn one_special_pattern(special: Seq<char>) -> Seq<ParamPatternView> {
    if special.len() == 1 {
        seq![ParamPatternView::ContainsSpecial(special)]
    } else {
        Seq::empty()
    }
}

/// The parts around the first `sep`, where there is one.
pub open spec fn parts_around(name: Seq<char>, sep: char) -> Option<(Seq<char>, Seq<char>)> {
    if contains(name, seq![sep]) {
        let parts = split(name, seq![sep]);
        Some((parts[0], parts[1]))
    } else {
        None
    }
}

/// `BeforeDash` and `AfterDash` where the name has a `-`.
pub open spec fn dash_patterns(name: Seq<char>) -> Seq<ParamPatternView> {
    match parts_around(name, '-') {
        Some(p) => seq![ParamPatternView::BeforeDash(p.0), ParamPatternView::AfterDash(p.1)],
        None => Seq::empty(),
    }
}

/// `BeforeUnderscore` and `AfterUnderscore` where the name has a `_`.
pub open spec fn underscore_patterns(name: Seq<char>) -> Seq<ParamPatternView> {
    match parts_around(name, '_') {
        Some(p) => seq![
            ParamPatternView::BeforeUnderscore(p.0),
            ParamPatternView::AfterUnderscore(p.1),
        ],
        None => Seq::empty(),
    }
}

/// `HasNumbersPostfix` where the name is letters followed by digits.
pub open spec fn number_patterns(captures: Option<Option<Seq<Option<Seq<char>>>>>) -> Seq<
    ParamPatternView,
> {
    match number_postfix(captures) {
        Some(np) => seq![ParamPatternView::HasNumbersPostfix(np.0, np.1)],
        None => Seq::empty(),
    }
}

/// The patterns a name may follow, in this order: a punctuation character in front; a
/// single special character; the parts around the first `-`; the parts around the
/// first `_`; letters followed by digits (from the groups of a match of
/// `^([^\\d]+)(\\d+)$`).
pub open spec fn name_patterns(name: Seq<char>, captures: Option<Option<Seq<Option<Seq<char>>>>>) -> Seq<
    ParamPatternView,
> {
    prefix_patterns(name) + one_special_pattern(special_chars(name)) + dash_patterns(name) + underscore_patterns(name)
        + number_patterns(captures)
}

/// The groups of a match as values.
pub open spec fn captures_view(c: Option<Option<Vec<Option<String>>>>) -> Option<
    Option<Seq<Option<Seq<char>>>>,
> {
    match c {
        Some(Some(g)) => Some(Some(crate::matching::opt_views(g@))),
        Some(None) => Some(None),
        None => None,
    }
}

/// The pattern of letters followed by digits.
pub open spec fn number_postfix_pattern() -> Seq<char> {
    "^([^\\d]+)(\\d+)$"@
}

/// `ContainsSpecial` or, with `prefix`, `SpecialPrefix` of a character.
fn char_pattern(c: char, prefix: bool) -> (r: ParamPatterns)
    ensures
        r@ == if prefix {
            ParamPatternView::SpecialPrefix(seq![c])
        } else {
            ParamPatternView::ContainsSpecial(seq![c])
        },
{
    if prefix {
        ParamPatterns::SpecialPrefix(c)
    } else {
        ParamPatterns::ContainsSpecial(c)
    }
}

/// The ASCII punctuation of a name other than `-` and `_`.
fn special_chars_exec(chars: &Vec<char>) -> (r: Vec<char>)
    ensures
        r@ == special_chars(chars@),
{
    let mut special: Vec<char> = Vec::new();
    let mut i: usize = 0;
    while i < chars.len()
        invariant
            i <= chars@.len(),
            special@ == special_chars(chars@.take(i as int)),
        decreases chars@.len() - i,
    {
        assert(chars@.take(i + 1).drop_last() =~= chars@.take(i as int));
        let c = chars[i];
        if crate::text::is_ascii_punctuation_exec(c) && c != '-' && c != '_' {
            special.push(c);
        }
        i = i + 1;
    }
    assert(chars@.take(i as int) =~= chars@);
    special
}

impl ParamPatterns {
    /// The name that checks whether the guess is right.
    pub fn turn_into_string(self) -> (r: String)
        ensures
            r@ == pattern_check_name(self@),
    {
        match self {
            ParamPatterns::SpecialPrefix(c) => {
                let mut v: Vec<char> = Vec::new();
                v.push(c);
                let mut out = string_from_chars(&v);
                out.append("anything");
                out
            },
            ParamPatterns::ContainsSpecial(c) => {
                let mut out = string_from_chars(&chars_of("anyth"));
                let mut v: Vec<char> = Vec::new();
                v.push(c);
                out.append(string_from_chars(&v).as_str());
                out.append("ng");
                out
            },
            ParamPatterns::BeforeUnderscore(s) => {
                let mut out = s;
                out.append("_anything");
                out
            },
            ParamPatterns::AfterUnderscore(s) => {
                let mut out = string_from_chars(&chars_of("anything_"));
                out.append(s.as_str());
                out
            },
            ParamPatterns::BeforeDash(s) => {
                let mut out = s;
                out.append("-anything");
                out
            },
            ParamPatterns::AfterDash(s) => {
                let mut out = string_from_chars(&chars_of("anything-"));
                out.append(s.as_str());
                out
            },
            ParamPatterns::HasNumbersPostfix(s, u) => {
                let one: [char; 1] = ['1'];
                assert(one@ == seq!['1']);
                let mut out = s;
                out.append(string_from_chars(&crate::text::repeat_exec(&one, u)).as_str());
                out
            },
        }
    }

    /// The patterns of a name, given the groups of the match of `^([^\d]+)(\d+)$`
    /// in it (see `name_patterns`).
    pub fn patterns_with_captures(param: &str, captures: Option<Option<Vec<Option<String>>>>) -> (r:
        Vec<Self>)
        requires
            param@.len() > 0,
        ensures
            pattern_views(r@) == name_patterns(param@, captures_view(captures)),
    {
        let chars = chars_of(param);
        let ghost caps = captures_view(captures);
        let mut out: Vec<Self> = Vec::new();
        if crate::text::is_ascii_punctuation_exec(chars[0]) {
            out.push(char_pattern(chars[0], true));
            assert(seq![chars@[0]] =~= param@.take(1));
        }
        assert(pattern_views(out@) =~= prefix_patterns(param@));
        let special = special_chars_exec(&chars);
        let ghost a = pattern_views(out@);
        if special.len() == 1 {
            let e = char_pattern(special[0], false);
            out.push(e);
            assert(pattern_views(out@) =~= a.push(e@));
            assert(seq![special@[0]] =~= special@);
        }
        assert(pattern_views(out@) =~= a + one_special_pattern(special@));
        let ghost b = pattern_views(out@);
        let dash: [char; 1] = ['-'];
        assert(dash@ == seq!['-']);
        if contains_exec(&chars, &dash) {
            let parts = split_exec(&chars, &dash);
            proof {
                lemma_split_at_least_two(param@, seq!['-']);
            }
            out.push(ParamPatterns::BeforeDash(string_from_chars(&parts[0])));
            out.push(ParamPatterns::AfterDash(string_from_chars(&parts[1])));
        }
        assert(pattern_views(out@) =~= b + dash_patterns(param@));
        let ghost c = pattern_views(out@);
        let underscore: [char; 1] = ['_'];
        assert(underscore@ == seq!['_']);
        if contains_exec(&chars, &underscore) {
            let parts = split_exec(&chars, &underscore);
            proof {
                lemma_split_at_least_two(param@, seq!['_']);
            }
            out.push(ParamPatterns::BeforeUnderscore(string_from_chars(&parts[0])));
            out.push(ParamPatterns::AfterUnderscore(string_from_chars(&parts[1])));
        }
        assert(pattern_views(out@) =~= c + underscore_patterns(param@));
        let ghost d = pattern_views(out@);
        match captures {
            Some(Some(g)) => {
                if g.len() > 2 {
                    match (&g[1], &g[2]) {
                        (Some(word), Some(digits)) => {
                            let n = digits.as_str().as_bytes().len();
                            out.push(ParamPatterns::HasNumbersPostfix(word.clone(), n));
                        },
                        _ => {},
                    }
                }
            },
            _ => {},
        }
        assert(pattern_views(out@) =~= d + number_patterns(caps));
        out
    }

    /// The patterns of a name (see `name_patterns`); the digits are found by the `regex`
    /// crate.
    pub fn get_patterns(param: &str) -> (r: Vec<Self>)
        requires
            param@.len() > 0,
        ensures
            pattern_views(r@) == name_patterns(
                param@,
                crate::matching::regex_captures_result(number_postfix_pattern(), param@),
            ),
    {
        let captures = crate::matching::regex_captures("^([^\\d]+)(\\d+)$", param);
        Self::patterns_with_captures(param, captures)
    }
}

/// A url shortened or padded for a progress bar: with at most `n + 2` bytes it is padded
/// with spaces to `n + 2` bytes; otherwise `..` and its last `n` bytes.
pub open spec fn folded_url(url: Seq<char>, n: nat) -> Seq<char> {
    let b = vstd::utf8::encode_utf8(url);
    if b.len() <= n + 2 {
        url + crate::text::repeat(seq![' '], (n + 2 - b.len()) as nat)
    } else {
        seq!['.', '.'] + vstd::utf8::decode_utf8(b.subrange(b.len() - n, b.len() as int))
    }
}

/// A url shortened or padded for a progress bar (see `folded_url`); the last `n` bytes
/// must start at a character.
pub fn fold_url(url: &str, n: usize) -> (r: String)
    requires
        n + 2 <= usize::MAX,
        url.spec_bytes().len() <= n + 2 || vstd::utf8::is_char_boundary(
            url.spec_bytes(),
            url.spec_bytes().len() - n,
        ),
    ensures
        r@ == folded_url(url@, n as nat),
{
    let len = url.as_bytes().len();
    if len <= n + 2 {
        let space: [char; 1] = [' '];
        assert(space@ == seq![' ']);
        let mut out = string_from_chars(&chars_of(url));
        out.append(string_from_chars(&crate::text::repeat_exec(&space, (n + 2) - len)).as_str());
        out
    } else {
        let (_, tail) = url.split_at(len - n);
        proof {
            vstd::utf8::encode_utf8_decode_utf8(tail@);
        }
        let mut out = string_from_chars(&chars_of(".."));
        proof {
            reveal_strlit("..");
        }
        out.append(tail);
        out
    }
}

} // verus!
