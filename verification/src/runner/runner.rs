//! The decisions of a run: how many parameters go into one request, whether the page
//! behaves the same between requests, which fixed values are tried next, and how a run
//! is repeated with what it found. Sending the requests is left to the caller, which
//! hands the outcome of each to these functions.
use vstd::prelude::*;

use crate::network::utils::{header_views, has_header, Headers, InjectionPlace};
use crate::runner::utils::{
    has_name, param_views, FoundParameter, FoundParameterView, Parameters, ReasonKind, Stable,
};
use crate::text::{chars_of, decimal, decimal_exec, split, split_exec, str_eq, string_from_chars, views};
use crate::utils::painted;

verus! {

/// Why a run stops.
#[derive(Clone, Copy, Debug, PartialEq, Eq, Structural)]
pub enum RunError {
    /// A page over the size limit, without `--force`.
    PageTooLarge,
    /// Requests with random parameters get different codes.
    UnstableCode,
    /// Reflections change between requests, and only reflections are searched for.
    UnstableReflections,
    /// The code of a request without parameters changed while guessing how many
    /// parameters fit into a query.
    BecameUnstable,
    /// No number of parameters down to 4 keeps the page's code in a query.
    MaxNotFound,
    /// `--test` with more than one url.
    TestNeedsOneUrl,
    /// `--test` with more than one method.
    TestNeedsOneMethod,
}

/// How many parameters a request holds to begin with: the given number, or by where
/// they go (512 in a body, 64 in headers); `None` for a query, where it is guessed. A
/// negative number may be raised later.
pub fn default_max(config_max: Option<usize>, place: InjectionPlace) -> (r: Option<isize>)
    ensures
        r == match config_max {
            Some(m) => Some(m as isize),
            None => match place {
                InjectionPlace::Body => Some(-512isize),
                InjectionPlace::Path => None,
                InjectionPlace::Headers => Some(-64isize),
                InjectionPlace::HeaderValue => Some(-64isize),
            },
        },
{
    match config_max {
        Some(m) => Some(m as isize),
        None => match place {
            InjectionPlace::Body => Some(-512),
            InjectionPlace::Path => None,
            InjectionPlace::Headers => Some(-64),
            InjectionPlace::HeaderValue => Some(-64),
        },
    }
}

/// The number of parameters per request for a default: its absolute value.
pub fn max_of_default(default_max: isize) -> (r: usize)
    ensures
        r as int == if default_max < 0 {
            -default_max
        } else {
            default_max as int
        },
{
    if default_max >= 0 {
        default_max as usize
    } else {
        (-(default_max + 1)) as usize + 1
    }
}

/// Whether a larger number of parameters per request is tried: only for the default
/// of 128 found for a query.
pub fn may_increase_max(default_max: isize) -> (r: bool)
    ensures
        r == (default_max == -128),
{
    default_max == -128
}

/// The sizes of the two requests that try a larger number of parameters: half as many
/// more, then twice that.
pub fn increase_probe_sizes(max: usize) -> (r: (usize, usize))
    requires
        max <= usize::MAX / 2,
    ensures
        r.0 == max + max / 2,
        r.1 == max + 2 * (max / 2),
{
    let delta = max / 2;
    (max + delta, max + delta * 2)
}

/// A request kept the page as it was: the same code, and no new change where the body
/// is otherwise stable.
pub fn page_kept(is_code_different: bool, new_diffs_count: usize, stable_body: bool) -> (r: bool)
    ensures
        r == (!is_code_different && (!stable_body || new_diffs_count == 0)),
{
    !is_code_different && (!stable_body || new_diffs_count == 0)
}

/// The number of parameters per request after trying larger ones, as a number.
pub open spec fn increased_size(max: nat, first_kept: bool, second_kept: bool) -> nat {
    if !first_kept {
        max
    } else if second_kept {
        max + 2 * (max / 2)
    } else {
        max + max / 2
    }
}

/// The number of parameters per request after trying larger ones: raised by the larger
/// size that kept the page (the second is only tried when the first kept it).
pub fn increased_max(max: usize, first_kept: bool, second_kept: bool) -> (r: usize)
    requires
        max <= usize::MAX / 2,
    ensures
        r == increased_size(max as nat, first_kept, second_kept),
        max <= r <= 2 * max,
{
    let delta = max / 2;
    if !first_kept {
        max
    } else if second_kept {
        max + delta * 2
    } else {
        max + delta
    }
}

/// The number of parameters first tried in a query.
pub const INITIAL_QUERY_MAX: usize = 128;

/// The next step in guessing how many parameters fit into a query.
#[derive(Clone, Copy, Debug, PartialEq, Eq, Structural)]
pub enum GuessStep {
    /// The number fits; it is the default (negative: it may be raised).
    Accept(isize),
    /// Check that a request without parameters still gets the page's code.
    CheckStability,
    /// Try this number.
    Retry(usize),
    Fail(RunError),
}

/// After a request with `max` parameters in the query: the number fits when the code
/// is the page's.
pub fn after_guess_response(max: usize, code_matches: bool) -> (r: GuessStep)
    requires
        max <= isize::MAX,
    ensures
        r == if code_matches {
            GuessStep::Accept(-(max as int) as isize)
        } else {
            GuessStep::CheckStability
        },
{
    if code_matches {
        GuessStep::Accept(-(max as isize))
    } else {
        GuessStep::CheckStability
    }
}

/// The step after checking a request without parameters (see `after_stability_check`).
pub open spec fn stability_step(max: usize, code_matches: bool) -> GuessStep {
    if !code_matches {
        GuessStep::Fail(RunError::BecameUnstable)
    } else if max / 2 < 4 {
        GuessStep::Fail(RunError::MaxNotFound)
    } else {
        GuessStep::Retry(max / 2)
    }
}

/// The number of parameters tried after `k` halvings of the first number in a query.
pub open spec fn halved(k: nat) -> nat
    decreases k,
{
    if k == 0 {
        INITIAL_QUERY_MAX as nat
    } else {
        halved((k - 1) as nat) / 2
    }
}

/// Guessing how many parameters fit into a query tries 128, 64, 32, 16, 8 and 4 in
/// turn, each after a check of the page's code, and gives up after 4; a number that
/// fits is taken as the (negative) default. Only 128 may then be raised, to 192 or 256,
/// so the number used in a query is one of 4, 8, 16, 32, 64, 128, 192 and 256.
pub proof fn lemma_query_limits(k: nat, first_kept: bool, second_kept: bool)
    requires
        k <= 5,
    ensures
        halved(k) == 128 || halved(k) == 64 || halved(k) == 32 || halved(k) == 16 || halved(k)
            == 8 || halved(k) == 4,
        stability_step(halved(k) as usize, true) == if k < 5 {
            GuessStep::Retry(halved(k + 1) as usize)
        } else {
            GuessStep::Fail(RunError::MaxNotFound)
        },
        ({
            let m = halved(k);
            let used = if m == 128 {
                increased_size(m, first_kept, second_kept)
            } else {
                m
            };
            used == 4 || used == 8 || used == 16 || used == 32 || used == 64 || used == 128 || used
                == 192 || used == 256
        }),
{
    reveal_with_fuel(halved, 7);
}

/// After checking a request without parameters: half as many are tried next, unless
/// the page's code changed or fewer than 4 would be tried.
pub fn after_stability_check(max: usize, code_matches: bool) -> (r: GuessStep)
    ensures
        r == stability_step(max, code_matches),
        r matches GuessStep::Retry(m) ==> 4 <= m < max,
{
    if !code_matches {
        GuessStep::Fail(RunError::BecameUnstable)
    } else if max / 2 < 4 {
        GuessStep::Fail(RunError::MaxNotFound)
    } else {
        GuessStep::Retry(max / 2)
    }
}

/// What the requests that learn the page's behaviour have shown.
pub struct Learning {
    /// Changes of the page that happen without any real parameter.
    pub diffs: Vec<String>,
    pub stable: Stable,
}

impl Learning {
    /// Nothing learned yet: everything counts as stable.
    pub fn new() -> (r: Self)
        ensures
            r.diffs@.len() == 0,
            r.stable.body,
            r.stable.reflections,
    {
        Learning { diffs: Vec::new(), stable: Stable { body: true, reflections: true } }
    }

    /// One response to random parameters: a page over the size limit stops the run
    /// (unless forced); reflections make them unstable; a changed code stops the run;
    /// the page's new changes are remembered.
    pub fn observe(
        &mut self,
        size: usize,
        force: bool,
        reflected_count: usize,
        is_code_diff: bool,
        new_diffs: Vec<String>,
    ) -> (r: Result<(), RunError>)
        ensures
            size > crate::MAX_PAGE_SIZE && !force ==> r == Err::<(), RunError>(
                RunError::PageTooLarge,
            ) && *final(self) == *old(self),
            !(size > crate::MAX_PAGE_SIZE && !force) ==> {
                &&& final(self).stable.body == old(self).stable.body
                &&& final(self).stable.reflections == (old(self).stable.reflections
                    && reflected_count == 0)
                &&& is_code_diff ==> r == Err::<(), RunError>(RunError::UnstableCode)
                    && final(self).diffs == old(self).diffs
                &&& !is_code_diff ==> r is Ok && views(final(self).diffs@) == views(
                    old(self).diffs@,
                ) + views(new_diffs@)
            },
    {
        if size > crate::MAX_PAGE_SIZE && !force {
            return Err(RunError::PageTooLarge);
        }
        if reflected_count > 0 {
            self.stable.reflections = false;
        }
        if is_code_diff {
            return Err(RunError::UnstableCode);
        }
        let ghost before = self.diffs@;
        let mut added = new_diffs;
        let ghost added_before = added@;
        self.diffs.append(&mut added);
        proof {
            crate::text::lemma_views_add(before, added_before);
        }
        Ok(())
    }

    /// The last response to random parameters: the body is unstable when it still
    /// shows new changes.
    pub fn finish(&mut self, new_diffs_count: usize)
        ensures
            final(self).diffs == old(self).diffs,
            final(self).stable.reflections == old(self).stable.reflections,
            final(self).stable.body == (old(self).stable.body && new_diffs_count == 0),
    {
        if new_diffs_count > 0 {
            self.stable.body = false;
        }
    }
}

/// Searching for reflected parameters only needs stable reflections.
pub fn check_reflections(reflected_only: bool, stable: &Stable) -> (r: Result<(), RunError>)
    ensures
        r is Err <==> (reflected_only && !stable.reflections),
        r matches Err(e) ==> e == RunError::UnstableReflections,
{
    if reflected_only && !stable.reflections {
        Err(RunError::UnstableReflections)
    } else {
        Ok(())
    }
}

/// `--test` prints one request and its response, so it takes one url and one method.
pub fn check_test_mode(url_count: usize, method_count: usize) -> (r: Result<(), RunError>)
    ensures
        url_count != 1 ==> r == Err::<(), RunError>(RunError::TestNeedsOneUrl),
        url_count == 1 && method_count != 1 ==> r == Err::<(), RunError>(
            RunError::TestNeedsOneMethod,
        ),
        url_count == 1 && method_count == 1 ==> r is Ok,
{
    if url_count != 1 {
        Err(RunError::TestNeedsOneUrl)
    } else if method_count != 1 {
        Err(RunError::TestNeedsOneMethod)
    } else {
        Ok(())
    }
}

/// The number of url checks run at once: 0 means all of them.
pub fn worker_count(workers: usize, url_count: usize, method_count: usize) -> (r: usize)
    requires
        url_count * method_count <= usize::MAX,
    ensures
        r == if workers == 0 {
            url_count * method_count
        } else {
            workers as int
        },
{
    if workers == 0 {
        url_count * method_count
    } else {
        workers
    }
}

/// The names of header discovery without `Content-Length` and `Host` (in any case),
/// which make servers time out.
pub open spec fn without_troublesome_headers(params: Seq<Seq<char>>) -> Seq<Seq<char>>
    decreases params.len(),
{
    if params.len() == 0 {
        Seq::empty()
    } else {
        let l = crate::text::lowercase(params.last());
        if l != "content-length"@ && l != "host"@ {
            without_troublesome_headers(params.drop_last()).push(params.last())
        } else {
            without_troublesome_headers(params.drop_last())
        }
    }
}

/// Removes `Content-Length` and `Host` (in any case) from the names of header discovery.
pub fn remove_troublesome_headers(params: Vec<String>) -> (r: Vec<String>)
    ensures
        views(r@) == without_troublesome_headers(views(params@)),
{
    let ghost pv = views(params@);
    let mut out: Vec<String> = Vec::new();
    let mut i: usize = 0;
    while i < params.len()
        invariant
            i <= params@.len(),
            pv == views(params@),
            views(out@) == without_troublesome_headers(pv.take(i as int)),
        decreases params@.len() - i,
    {
        assert(pv.take(i + 1).drop_last() =~= pv.take(i as int));
        assert(pv.take(i + 1).last() == pv[i as int]);
        let l = crate::text::to_lowercase(params[i].as_str());
        if !str_eq(l.as_str(), "content-length") && !str_eq(l.as_str(), "host") {
            let ghost before = views(out@);
            out.push(params[i].clone());
            assert(views(out@) =~= before.push(pv[i as int]));
        }
        i = i + 1;
    }
    assert(pv.take(i as int) =~= pv);
    out
}

/// The names with those of `extra` added that are not there yet, in order.
pub open spec fn merged(params: Seq<Seq<char>>, extra: Seq<Seq<char>>) -> Seq<Seq<char>>
    decreases extra.len(),
{
    if extra.len() == 0 {
        params
    } else {
        let m = merged(params, extra.drop_last());
        if m.contains(extra.last()) {
            m
        } else {
            m.push(extra.last())
        }
    }
}

/// Adds the names of `extra` that are not among the names yet, keeping the order.
pub fn merge_unique(params: &mut Vec<String>, extra: &Vec<String>)
    ensures
        views(final(params)@) == merged(views(old(params)@), views(extra@)),
{
    let ghost ev = views(extra@);
    let ghost start = views(params@);
    let mut i: usize = 0;
    while i < extra.len()
        invariant
            i <= extra@.len(),
            ev == views(extra@),
            start == views(old(params)@),
            views(params@) == merged(start, ev.take(i as int)),
        decreases extra@.len() - i,
    {
        assert(ev.take(i + 1).drop_last() =~= ev.take(i as int));
        assert(ev.take(i + 1).last() == ev[i as int]);
        if !crate::network::response::contains_string(params, &extra[i]) {
            let ghost before = views(params@);
            params.push(extra[i].clone());
            assert(views(params@) =~= before.push(ev[i as int]));
        }
        i = i + 1;
    }
    assert(ev.take(i as int) =~= ev);
}

/// Merging keeps the names there were, first and in order, adds every name of
/// `extra`, adds nothing else, and adds no name twice.
pub proof fn lemma_merged(params: Seq<Seq<char>>, extra: Seq<Seq<char>>)
    ensures
        merged(params, extra).len() >= params.len(),
        merged(params, extra).take(params.len() as int) == params,
        forall|x: Seq<char>| #[trigger] extra.contains(x) ==> merged(params, extra).contains(x),
        forall|x: Seq<char>|
            #[trigger] merged(params, extra).contains(x) ==> params.contains(x) || extra.contains(x),
        params.no_duplicates() ==> merged(params, extra).no_duplicates(),
    decreases extra.len(),
{
    if extra.len() > 0 {
        let e = extra.drop_last();
        lemma_merged(params, e);
        let m = merged(params, e);
        assert forall|x: Seq<char>| #[trigger] extra.contains(x) implies merged(
            params,
            extra,
        ).contains(x) by {
            let k = choose|k: int| 0 <= k < extra.len() && extra[k] == x;
            if k < extra.len() - 1 {
                assert(e[k] == x);
                assert(e.contains(x));
            }
            if !m.contains(extra.last()) {
                if m.contains(x) {
                    let j = choose|j: int| 0 <= j < m.len() && m[j] == x;
                    assert(m.push(extra.last())[j] == x);
                } else {
                    assert(m.push(extra.last())[m.len() as int] == x);
                }
            }
        }
        assert forall|x: Seq<char>| #[trigger] merged(params, extra).contains(x) implies params.contains(
            x,
        ) || extra.contains(x) by {
            if !m.contains(x) {
                assert(x == extra.last());
                assert(extra[extra.len() - 1] == x);
            } else if !params.contains(x) {
                let k = choose|k: int| 0 <= k < e.len() && e[k] == x;
                assert(extra[k] == x);
            }
        }
        if !m.contains(extra.last()) {
            assert(m.push(extra.last()).take(params.len() as int) =~= m.take(params.len() as int));
        }
    }
}

/// The names of header discovery keep their order and lose exactly those that are
/// `Content-Length` or `Host` in any case.
pub proof fn lemma_without_troublesome_headers(params: Seq<Seq<char>>)
    ensures
        forall|x: Seq<char>|
            #[trigger] without_troublesome_headers(params).contains(x) <==> params.contains(x)
                && crate::text::lowercase(x) != "content-length"@ && crate::text::lowercase(x)
                != "host"@,
    decreases params.len(),
{
    if params.len() > 0 {
        let p = params.drop_last();
        lemma_without_troublesome_headers(p);
        let w = without_troublesome_headers(p);
        assert forall|x: Seq<char>|
            #[trigger] without_troublesome_headers(params).contains(x) <==> params.contains(x)
                && crate::text::lowercase(x) != "content-length"@ && crate::text::lowercase(x)
                != "host"@ by {
            if params.contains(x) && !p.contains(x) {
                let k = choose|k: int| 0 <= k < params.len() && params[k] == x;
                if k < params.len() - 1 {
                    assert(p[k] == x);
                }
                assert(x == params.last());
            }
            if p.contains(x) {
                let k = choose|k: int| 0 <= k < p.len() && p[k] == x;
                assert(params[k] == x);
            }
            let l = crate::text::lowercase(params.last());
            if l != "content-length"@ && l != "host"@ {
                if w.contains(x) {
                    let j = choose|j: int| 0 <= j < w.len() && w[j] == x;
                    assert(w.push(params.last())[j] == x);
                }
                if x == params.last() {
                    assert(w.push(params.last())[w.len() as int] == x);
                }
                if w.push(params.last()).contains(x) && x != params.last() {
                    let j = choose|j: int| 0 <= j < w.len() + 1 && w.push(params.last())[j] == x;
                    assert(w[j] == x);
                }
            }
        }
    }
}

/// The name before any `=` of a found parameter.
pub open spec fn base_name(name: Seq<char>) -> Seq<char> {
    split(name, seq!['='])[0]
}

/// Some found parameter has this name (before any `=`).
pub open spec fn key_found(found: Seq<FoundParameterView>, key: Seq<char>) -> bool {
    exists|i: int| 0 <= i < found.len() && base_name((#[trigger] found[i]).name) == key
}

/// A parameter with fixed values is tried next when it was not found and has values left.
pub open spec fn tried_next(entry: (Seq<char>, Seq<Seq<char>>), found: Seq<FoundParameterView>) -> bool {
    !key_found(found, entry.0) && entry.1.len() > 0
}

/// The next requests for parameters with fixed values: `name=value` with the last value
/// left of each parameter tried next.
pub open spec fn custom_batch(
    custom: Seq<(Seq<char>, Seq<Seq<char>>)>,
    found: Seq<FoundParameterView>,
) -> Seq<Seq<char>>
    decreases custom.len(),
{
    if custom.len() == 0 {
        Seq::empty()
    } else if tried_next(custom.last(), found) {
        custom_batch(custom.drop_last(), found).push(
            custom.last().0 + seq!['='] + custom.last().1.last(),
        )
    } else {
        custom_batch(custom.drop_last(), found)
    }
}

/// The parameters with fixed values after a batch: each one tried has its last value removed.
pub open spec fn after_batch(
    custom: Seq<(Seq<char>, Seq<Seq<char>>)>,
    found: Seq<FoundParameterView>,
) -> Seq<(Seq<char>, Seq<Seq<char>>)> {
    custom.map_values(
        |e: (Seq<char>, Seq<Seq<char>>)|
            if tried_next(e, found) {
                (e.0, e.1.drop_last())
            } else {
                e
            },
    )
}

/// The number of fixed values left.
pub open spec fn values_left(custom: Seq<(Seq<char>, Seq<Seq<char>>)>) -> nat
    decreases custom.len(),
{
    if custom.len() == 0 {
        0
    } else {
        values_left(custom.drop_last()) + custom.last().1.len()
    }
}

/// A batch takes one value from each parameter tried, so the values left go down by
/// the size of the batch, and the tries end.
pub proof fn lemma_batch_uses_values(
    custom: Seq<(Seq<char>, Seq<Seq<char>>)>,
    found: Seq<FoundParameterView>,
)
    ensures
        values_left(after_batch(custom, found)) + custom_batch(custom, found).len() == values_left(
            custom,
        ),
    decreases custom.len(),
{
    if custom.len() > 0 {
        lemma_batch_uses_values(custom.drop_last(), found);
        assert(after_batch(custom, found).drop_last() =~= after_batch(custom.drop_last(), found));
    }
}

/// Whether some found parameter has this name before any `=`.
fn key_found_exec(found: &Vec<FoundParameter>, key: &String) -> (r: bool)
    ensures
        r == key_found(param_views(found@), key@),
{
    let eq: [char; 1] = ['='];
    assert(eq@ == seq!['=']);
    let ghost fv = param_views(found@);
    let mut i: usize = 0;
    while i < found.len()
        invariant
            i <= found@.len(),
            fv == param_views(found@),
            eq@ == seq!['='],
            forall|m: int| 0 <= m < i ==> base_name((#[trigger] fv[m]).name) != key@,
        decreases found@.len() - i,
    {
        let parts = split_exec(&crate::text::chars_of(found[i].name.as_str()), &eq);
        proof {
            crate::text::lemma_split_nonempty(found@[i as int].name@, seq!['=']);
        }
        if crate::text::chars_eq(&parts[0], &crate::text::chars_of(key.as_str())) {
            assert(base_name(fv[i as int].name) == key@);
            return true;
        }
        i = i + 1;
    }
    false
}

/// The next batch of parameters with fixed values, like `admin=true`: every parameter
/// that was not found gives up its last value. An empty batch ends the tries.
pub fn next_custom_batch(custom: &mut Vec<(String, Vec<String>)>, found: &Vec<FoundParameter>) -> (r:
    Vec<String>)
    ensures
        views(r@) == custom_batch(
            crate::config::utils::custom_views(old(custom)@),
            param_views(found@),
        ),
        crate::config::utils::custom_views(final(custom)@) == after_batch(
            crate::config::utils::custom_views(old(custom)@),
            param_views(found@),
        ),
{
    let ghost cv = crate::config::utils::custom_views(custom@);
    let ghost fv = param_views(found@);
    let mut batch: Vec<String> = Vec::new();
    let mut i: usize = 0;
    while i < custom.len()
        invariant
            i <= custom@.len(),
            custom@.len() == old(custom)@.len(),
            cv == crate::config::utils::custom_views(old(custom)@),
            fv == param_views(found@),
            views(batch@) == custom_batch(cv.take(i as int), fv),
            forall|m: int|
                0 <= m < i ==> #[trigger] crate::config::utils::custom_views(custom@)[m] == after_batch(
                    cv,
                    fv,
                )[m],
            forall|m: int|
                i <= m < custom@.len() ==> #[trigger] crate::config::utils::custom_views(custom@)[m]
                    == cv[m],
        decreases custom@.len() - i,
    {
        assert(cv.take(i + 1).drop_last() =~= cv.take(i as int));
        assert(cv.take(i + 1).last() == cv[i as int]);
        assert(crate::config::utils::custom_views(custom@)[i as int] == cv[i as int]);
        let key = custom[i].0.clone();
        let tried = !key_found_exec(found, &key) && custom[i].1.len() > 0;
        if tried {
            let ghost before = crate::config::utils::custom_views(custom@);
            let (k, mut values) = custom.remove(i);
            assert(k@ == cv[i as int].0);
            assert(views(values@) == cv[i as int].1);
            let ghost all_values = values@;
            let value = values.pop().unwrap();
            assert(value == all_values.last());
            assert(views(all_values).last() == value@);
            let mut entry = k.clone();
            entry.append("=");
            proof {
                reveal_strlit("=");
            }
            entry.append(value.as_str());
            assert("="@ =~= seq!['=']);
            assert(entry@ =~= cv[i as int].0 + seq!['='] + cv[i as int].1.last());
            let ghost bb = views(batch@);
            batch.push(entry);
            assert(views(batch@) =~= bb.push(cv[i as int].0 + seq!['='] + cv[i as int].1.last()));
            let ghost vs = values@;
            custom.insert(i, (k, values));
            assert(views(vs) =~= cv[i as int].1.drop_last());
            assert forall|m: int|
                0 <= m < custom@.len() implies #[trigger] crate::config::utils::custom_views(
                custom@,
            )[m] == (if m == i {
                after_batch(cv, fv)[m]
            } else {
                before[m]
            }) by {}
        }
        i = i + 1;
    }
    assert(cv.take(i as int) =~= cv);
    assert(crate::config::utils::custom_views(custom@) =~= after_batch(cv, fv));
    batch
}

/// The names still to check: those no found parameter has.
pub open spec fn remaining_names(params: Seq<Seq<char>>, found: Seq<FoundParameterView>) -> Seq<
    Seq<char>,
>
    decreases params.len(),
{
    if params.len() == 0 {
        Seq::empty()
    } else if has_name(found, params.last()) {
        remaining_names(params.drop_last(), found)
    } else {
        remaining_names(params.drop_last(), found).push(params.last())
    }
}

/// A recursion round: the names still to check are exactly the names given that were
/// not found, and the parameters added to every request are exactly the found ones not
/// there yet that did not change the code.
pub proof fn lemma_recursion_round(
    params: Seq<Seq<char>>,
    found: Seq<FoundParameterView>,
    existing: Seq<(Seq<char>, Seq<char>)>,
)
    ensures
        forall|x: Seq<char>|
            #[trigger] remaining_names(params, found).contains(x) <==> params.contains(x)
                && !has_name(found, x),
        forall|p: FoundParameterView|
            #[trigger] recursion_kept(found, existing).contains(p) <==> found.contains(p)
                && kept_for_recursion(p, existing),
    decreases params.len() + found.len(),
{
    if params.len() > 0 {
        let d = params.drop_last();
        lemma_recursion_round(d, found, existing);
        let w = remaining_names(d, found);
        assert forall|x: Seq<char>|
            #[trigger] remaining_names(params, found).contains(x) <==> params.contains(x)
                && !has_name(found, x) by {
            if params.contains(x) && !d.contains(x) {
                let k = choose|k: int| 0 <= k < params.len() && params[k] == x;
                if k < params.len() - 1 {
                    assert(d[k] == x);
                }
            }
            if d.contains(x) {
                let k = choose|k: int| 0 <= k < d.len() && d[k] == x;
                assert(params[k] == x);
            }
            if !has_name(found, params.last()) {
                if w.contains(x) {
                    let j = choose|j: int| 0 <= j < w.len() && w[j] == x;
                    assert(w.push(params.last())[j] == x);
                }
                if x == params.last() {
                    assert(w.push(params.last())[w.len() as int] == x);
                }
                if w.push(params.last()).contains(x) && x != params.last() {
                    let j = choose|j: int| 0 <= j < w.len() + 1 && w.push(params.last())[j] == x;
                    assert(w[j] == x);
                }
            }
        }
    }
    if found.len() > 0 {
        let d = found.drop_last();
        lemma_recursion_round(Seq::empty(), d, existing);
        let w = recursion_kept(d, existing);
        assert forall|x: FoundParameterView|
            #[trigger] recursion_kept(found, existing).contains(x) <==> found.contains(x)
                && kept_for_recursion(x, existing) by {
            if found.contains(x) && !d.contains(x) {
                let k = choose|k: int| 0 <= k < found.len() && found[k] == x;
                if k < found.len() - 1 {
                    assert(d[k] == x);
                }
            }
            if d.contains(x) {
                let k = choose|k: int| 0 <= k < d.len() && d[k] == x;
                assert(found[k] == x);
            }
            if kept_for_recursion(found.last(), existing) {
                if w.contains(x) {
                    let j = choose|j: int| 0 <= j < w.len() && w[j] == x;
                    assert(w.push(found.last())[j] == x);
                }
                if x == found.last() {
                    assert(w.push(found.last())[w.len() as int] == x);
                }
                if w.push(found.last()).contains(x) && x != found.last() {
                    let j = choose|j: int| 0 <= j < w.len() + 1 && w.push(found.last())[j] == x;
                    assert(w[j] == x);
                }
            }
        }
    }
}

/// Removes the names of found parameters from the names to check.
pub fn remaining_parameters(params: &Vec<String>, found: &Vec<FoundParameter>) -> (r: Vec<String>)
    ensures
        views(r@) == remaining_names(views(params@), param_views(found@)),
{
    let ghost pv = views(params@);
    let mut out: Vec<String> = Vec::new();
    let mut i: usize = 0;
    while i < params.len()
        invariant
            i <= params@.len(),
            pv == views(params@),
            views(out@) == remaining_names(pv.take(i as int), param_views(found@)),
        decreases params@.len() - i,
    {
        assert(pv.take(i + 1).drop_last() =~= pv.take(i as int));
        assert(pv.take(i + 1).last() == pv[i as int]);
        if !found.contains_name(params[i].as_str()) {
            let ghost before = views(out@);
            out.push(params[i].clone());
            assert(views(out@) =~= before.push(pv[i as int]));
        }
        i = i + 1;
    }
    assert(pv.take(i as int) =~= pv);
    out
}

/// A found parameter is kept for the next round of a recursive search when it is not
/// there yet and does not change the page's code.
pub open spec fn kept_for_recursion(p: FoundParameterView, existing: Seq<(Seq<char>, Seq<char>)>) -> bool {
    !has_header(existing, p.name) && p.reason_kind != ReasonKind::Code
}

/// The found parameters kept for the next round (see `kept_for_recursion`).
pub open spec fn recursion_kept(
    found: Seq<FoundParameterView>,
    existing: Seq<(Seq<char>, Seq<char>)>,
) -> Seq<FoundParameterView>
    decreases found.len(),
{
    if found.len() == 0 {
        Seq::empty()
    } else if kept_for_recursion(found.last(), existing) {
        recursion_kept(found.drop_last(), existing).push(found.last())
    } else {
        recursion_kept(found.drop_last(), existing)
    }
}

/// The parameters added to every request in the next round of a recursive search: the
/// kept found parameters with their values, or random ones.
pub fn recursion_parameters(found: &Vec<FoundParameter>, existing: &Vec<(String, String)>) -> (r: Vec<
    (String, String),
>)
    ensures
        ({
            let kept = recursion_kept(param_views(found@), header_views(existing@));
            &&& r@.len() == kept.len()
            &&& forall|i: int|
                0 <= i < kept.len() ==> (#[trigger] r@[i]).0@ == kept[i].name && match kept[i].value {
                    Some(v) => r@[i].1@ == v,
                    None => crate::utils::is_random_word(r@[i].1@, crate::VALUE_LENGTH as nat),
                }
        }),
{
    let ghost fv = param_views(found@);
    let ghost ev = header_views(existing@);
    let mut out: Vec<(String, String)> = Vec::new();
    let mut i: usize = 0;
    while i < found.len()
        invariant
            i <= found@.len(),
            fv == param_views(found@),
            ev == header_views(existing@),
            out@.len() == recursion_kept(fv.take(i as int), ev).len(),
            forall|k: int|
                0 <= k < out@.len() ==> {
                    let p = recursion_kept(fv.take(i as int), ev)[k];
                    (#[trigger] out@[k]).0@ == p.name && match p.value {
                        Some(v) => out@[k].1@ == v,
                        None => crate::utils::is_random_word(
                            out@[k].1@,
                            crate::VALUE_LENGTH as nat,
                        ),
                    }
                },
        decreases found@.len() - i,
    {
        assert(fv.take(i + 1).drop_last() =~= fv.take(i as int));
        assert(fv.take(i + 1).last() == fv[i as int]);
        let x = &found[i];
        if !existing.contains_key(x.name.as_str()) && x.reason_kind != ReasonKind::Code {
            out.push(x.get());
        }
        i = i + 1;
    }
    assert(fv.take(i as int) =~= fv);
    out
}

/// Whether a round found a parameter that was not found before.
pub fn has_new_parameters(found: &Vec<FoundParameter>, new_found: &Vec<FoundParameter>) -> (r: bool)
    ensures
        r == exists|i: int|
            0 <= i < new_found@.len() && !has_name(
                param_views(found@),
                (#[trigger] new_found@[i]).name@,
            ),
{
    let mut i: usize = 0;
    while i < new_found.len()
        invariant
            i <= new_found@.len(),
            forall|k: int|
                0 <= k < i ==> has_name(param_views(found@), (#[trigger] new_found@[k]).name@),
        decreases new_found@.len() - i,
    {
        if !found.contains_name(new_found[i].name.as_str()) {
            return true;
        }
        i = i + 1;
    }
    false
}

/// The parameters of every request without the found ones (those given by the user).
pub open spec fn user_parameter_list(
    parameters: Seq<(Seq<char>, Seq<char>)>,
    found: Seq<FoundParameterView>,
) -> Seq<(Seq<char>, Seq<char>)>
    decreases parameters.len(),
{
    if parameters.len() == 0 {
        Seq::empty()
    } else if has_name(found, parameters.last().0) {
        user_parameter_list(parameters.drop_last(), found)
    } else {
        user_parameter_list(parameters.drop_last(), found).push(parameters.last())
    }
}

/// Removes the found parameters from the parameters of every request, which leaves
/// those given by the user.
pub fn user_parameters(parameters: &Vec<(String, String)>, found: &Vec<FoundParameter>) -> (r: Vec<
    (String, String),
>)
    ensures
        header_views(r@) == user_parameter_list(header_views(parameters@), param_views(found@)),
{
    let ghost pv = header_views(parameters@);
    let mut out: Vec<(String, String)> = Vec::new();
    let mut i: usize = 0;
    while i < parameters.len()
        invariant
            i <= parameters@.len(),
            pv == header_views(parameters@),
            header_views(out@) == user_parameter_list(pv.take(i as int), param_views(found@)),
        decreases parameters@.len() - i,
    {
        assert(pv.take(i + 1).drop_last() =~= pv.take(i as int));
        assert(pv.take(i + 1).last() == pv[i as int]);
        if !found.contains_name(parameters[i].0.as_str()) {
            let ghost before = header_views(out@);
            out.push((parameters[i].0.clone(), parameters[i].1.clone()));
            assert(header_views(out@) =~= before.push(pv[i as int]));
        }
        i = i + 1;
    }
    assert(pv.take(i as int) =~= pv);
    out
}

/// The words of the page tried as parameter names, unless headers are searched for.
pub fn possible_parameters_for(
    place: InjectionPlace,
    initial_response: &crate::network::response::Response,
) -> (r: Vec<String>)
    ensures
        place == InjectionPlace::Headers ==> r@.len() == 0,
        place != InjectionPlace::Headers ==> views(r@).to_set()
            == crate::network::response::possible_parameters(initial_response.text@).to_set()
            && crate::text::strictly_sorted_lex(views(r@)),
{
    if place != InjectionPlace::Headers {
        initial_response.get_possible_parameters()
    } else {
        Vec::new()
    }
}

/// The largest size in bytes of the strings.
pub open spec fn max_byte_len(v: Seq<Seq<char>>) -> nat
    decreases v.len(),
{
    if v.len() == 0 {
        0
    } else {
        let rest = max_byte_len(v.drop_last());
        let here = crate::network::response::byte_len(v.last());
        if here > rest {
            here
        } else {
            rest
        }
    }
}

/// The largest size in bytes of the strings.
fn max_byte_len_exec(v: &Vec<String>) -> (r: usize)
    ensures
        r == max_byte_len(views(v@)),
{
    let ghost vv = views(v@);
    let mut best: usize = 0;
    let mut i: usize = 0;
    while i < v.len()
        invariant
            i <= v@.len(),
            vv == views(v@),
            best == max_byte_len(vv.take(i as int)),
        decreases v@.len() - i,
    {
        assert(vv.take(i + 1).drop_last() =~= vv.take(i as int));
        assert(vv.take(i + 1).last() == vv[i as int]);
        let here = v[i].as_str().as_bytes().len();
        if here > best {
            best = here;
        }
        i = i + 1;
    }
    assert(vv.take(i as int) =~= vv);
    best
}

/// The id of a runner padded to the width of the number of urls, after `:`.
pub open spec fn padded_id(id: nat, url_count: nat) -> Seq<char> {
    decimal(id) + ":"@ + crate::text::repeat(
        seq![' '],
        (decimal(url_count).len() - decimal(id).len()) as nat,
    )
}

/// The prefix of a runner's progress bar: its padded id (where several runners print at
/// once), the method in blue padded to the longest method, and the folded url in green.
pub open spec fn progress_prefix_text(
    r: Seq<char>,
    id: Option<usize>,
    url_count: nat,
    methods: Seq<Seq<char>>,
    method: Seq<char>,
    url: Seq<char>,
) -> bool {
    let padded_method = method + crate::text::repeat(
        seq![' '],
        (max_byte_len(methods) - crate::network::response::byte_len(method)) as nat,
    );
    let folded = crate::runner::utils::folded_url(url, crate::DEFAULT_PROGRESS_URL_MAX_LEN as nat);
    exists|idp: Seq<char>, m: Seq<char>, u: Seq<char>|
        #![trigger painted(padded_method, crate::utils::Color::Blue, m), painted(folded, crate::utils::Color::Green, u), id_part(id, url_count, idp)]
        id_part(id, url_count, idp) && painted(padded_method, crate::utils::Color::Blue, m)
            && painted(folded, crate::utils::Color::Green, u) && r == idp + m + " "@ + u
}

/// The id part of a progress bar's prefix: the padded id with the id colored, and a space.
pub open spec fn id_part(id: Option<usize>, url_count: nat, s: Seq<char>) -> bool {
    match id {
        Some(n) => exists|c: Seq<char>|
            #[trigger] painted(decimal(n as nat), crate::utils::id_color(n as nat), c) && s
                == crate::text::replace(padded_id(n as nat, url_count), decimal(n as nat), c)
                + " "@,
        None => s == Seq::<char>::empty(),
    }
}

/// The prefix of a runner's progress bar (see `progress_prefix_text`).
pub fn progress_prefix(
    id: Option<usize>,
    url_count: usize,
    methods: &Vec<String>,
    method: &String,
    url: &str,
) -> (r: String)
    requires
        id matches Some(n) ==> decimal(n as nat).len() <= decimal(url_count as nat).len(),
        crate::network::response::byte_len(method@) <= max_byte_len(views(methods@)),
        vstd::utf8::encode_utf8(url@).len() <= crate::DEFAULT_PROGRESS_URL_MAX_LEN + 2
            || vstd::utf8::is_char_boundary(
            vstd::utf8::encode_utf8(url@),
            vstd::utf8::encode_utf8(url@).len() - crate::DEFAULT_PROGRESS_URL_MAX_LEN,
        ),
    ensures
        progress_prefix_text(r@, id, url_count as nat, views(methods@), method@, url@),
{
    let space: [char; 1] = [' '];
    assert(space@ == seq![' ']);
    let mut out = String::new();
    let ghost idp: Seq<char> = Seq::empty();
    match id {
        Some(n) => {
            let digits = decimal_exec(n as u128);
            let width = decimal_exec(url_count as u128);
            let mut padded = digits.clone();
            padded.push(':');
            let spaces = crate::text::repeat_exec(&space, width.len() - digits.len());
            let mut k: usize = 0;
            let ghost start = padded@;
            while k < spaces.len()
                invariant
                    k <= spaces@.len(),
                    padded@ == start + spaces@.take(k as int),
                decreases spaces@.len() - k,
            {
                padded.push(spaces[k]);
                assert(spaces@.take(k + 1) =~= spaces@.take(k as int).push(spaces@[k as int]));
                k = k + 1;
            }
            assert(spaces@.take(k as int) =~= spaces@);
            proof {
                reveal_strlit(":");
            }
            assert(digits@ =~= decimal(n as nat));
            assert(padded@ =~= padded_id(n as nat, url_count as nat));
            let colored = crate::utils::color_id(n);
            let replaced = crate::text::replace_exec(&padded, &digits, &chars_of(colored.as_str()));
            out = string_from_chars(&replaced);
            out.append(" ");
            assert(painted(decimal(n as nat), crate::utils::id_color(n as nat), colored@));
            proof {
                idp = out@;
            }
        },
        None => {},
    }
    assert(id_part(id, url_count as nat, idp));
    let longest = max_byte_len_exec(methods);
    let mut padded_method = method.clone();
    let pad = crate::text::repeat_exec(&space, longest - method.as_str().as_bytes().len());
    padded_method.append(string_from_chars(&pad).as_str());
    let m = crate::utils::paint(padded_method.as_str(), crate::utils::Color::Blue);
    let folded = crate::runner::utils::fold_url(url, crate::DEFAULT_PROGRESS_URL_MAX_LEN);
    let u = crate::utils::paint(folded.as_str(), crate::utils::Color::Green);
    out.append(m.as_str());
    out.append(" ");
    out.append(u.as_str());
    assert(padded_method@ == method@ + crate::text::repeat(
        seq![' '],
        (max_byte_len(views(methods@)) - crate::network::response::byte_len(method@)) as nat,
    ));
    assert(painted(padded_method@, crate::utils::Color::Blue, m@));
    assert(painted(folded@, crate::utils::Color::Green, u@));
    assert(id_part(id, url_count as nat, idp));
    out
}

/// The line that starts a runner: its id (where several runners print at once), the
/// method in blue, the url in green, the page's code colored, its size in green and how
/// often a parameter is reflected in magenta: `GET url (200) [1234] {0}`.
pub open spec fn banner_text(
    r: Seq<char>,
    id: Option<usize>,
    method: Seq<char>,
    url: Seq<char>,
    code: u16,
    size: nat,
    reflections: nat,
) -> bool {
    exists|idp: Seq<char>, m: Seq<char>, u: Seq<char>, c: Seq<char>, z: Seq<char>, f: Seq<char>|
        #![trigger banner_id(id, idp), painted(method, crate::utils::Color::Blue, m), painted(url, crate::utils::Color::Green, u), crate::network::response::painted_code(code, c), painted(decimal(size), crate::utils::Color::Green, z), painted(decimal(reflections), crate::utils::Color::Magenta, f)]
        banner_id(id, idp) && painted(method, crate::utils::Color::Blue, m) && painted(
            url,
            crate::utils::Color::Green,
            u,
        ) && crate::network::response::painted_code(code, c) && painted(
            decimal(size),
            crate::utils::Color::Green,
            z,
        ) && painted(decimal(reflections), crate::utils::Color::Magenta, f) && r == idp + m
            + " "@ + u + " ("@ + c + ") ["@ + z + "] {"@ + f + "}"@
}

/// The id part of a runner's first line: the colored id between brackets and a space.
pub open spec fn banner_id(id: Option<usize>, s: Seq<char>) -> bool {
    match id {
        Some(n) => exists|c: Seq<char>|
            #[trigger] painted(decimal(n as nat), crate::utils::id_color(n as nat), c) && s == "["@
                + c + "] "@,
        None => s == Seq::<char>::empty(),
    }
}

/// The line that starts a runner (see `banner_text`).
pub fn banner_url(
    id: Option<usize>,
    defaults: &crate::network::request::RequestDefaults,
    initial_response: &crate::network::response::Response,
) -> (r: String)
    ensures
        banner_text(
            r@,
            id,
            defaults.method@,
            defaults.spec_url_without_default_port(),
            initial_response.code,
            crate::network::response::byte_len(initial_response.text@),
            defaults.amount_of_reflections as nat,
        ),
{
    let mut out = String::new();
    match id {
        Some(n) => {
            out.append("[");
            let c = crate::utils::color_id(n);
            out.append(c.as_str());
            out.append("] ");
            assert(painted(decimal(n as nat), crate::utils::id_color(n as nat), c@));
        },
        None => {},
    }
    let ghost idp = out@;
    assert(banner_id(id, idp));
    let m = crate::utils::paint(defaults.method.as_str(), crate::utils::Color::Blue);
    let u = crate::utils::paint(
        defaults.url_without_default_port().as_str(),
        crate::utils::Color::Green,
    );
    let c = initial_response.code();
    let z = crate::utils::paint(
        string_from_chars(&decimal_exec(initial_response.text.as_str().as_bytes().len() as u128)).as_str(),
        crate::utils::Color::Green,
    );
    let f = crate::utils::paint(
        string_from_chars(&decimal_exec(defaults.amount_of_reflections as u128)).as_str(),
        crate::utils::Color::Magenta,
    );
    out.append(m.as_str());
    out.append(" ");
    out.append(u.as_str());
    out.append(" (");
    out.append(c.as_str());
    out.append(") [");
    out.append(z.as_str());
    out.append("] {");
    out.append(f.as_str());
    out.append("}");
    assert(painted(defaults.method@, crate::utils::Color::Blue, m@));
    assert(painted(defaults.spec_url_without_default_port(), crate::utils::Color::Green, u@));
    assert(crate::network::response::painted_code(initial_response.code, c@));
    assert(painted(
        decimal(crate::network::response::byte_len(initial_response.text@)),
        crate::utils::Color::Green,
        z@,
    ));
    assert(painted(
        decimal(defaults.amount_of_reflections as nat),
        crate::utils::Color::Magenta,
        f@,
    ));
    out
}

} // verus!
