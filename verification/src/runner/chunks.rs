//! Checking parameters chunk by chunk: what the response to a chunk tells, and which
//! chunks are checked again in smaller pieces. The caller sends the requests and hands
//! over what came back.
use vstd::prelude::*;

use crate::network::response::{
    contains_string, count_insert, count_insert_exec, count_views, distinct_names,
};
use crate::runner::runner::RunError;
use crate::runner::utils::{
    has_name, name_and_value, param_views, FoundParameter, FoundParameterView, Parameters,
    ReasonKind,
};
use crate::text::{decimal, decimal_exec, join, str_eq, string_from_chars, views};

verus! {

/// The count kept for a key, if any.
pub open spec fn count_lookup(m: Seq<(Seq<char>, nat)>, k: Seq<char>) -> Option<nat> {
    if exists|i: int| 0 <= i < m.len() && (#[trigger] m[i]).0 == k {
        Some(m[choose|i: int| 0 <= i < m.len() && (#[trigger] m[i]).0 == k].1)
    } else {
        None
    }
}

/// The count kept for a key.
fn count_lookup_exec(m: &Vec<(String, usize)>, k: &String) -> (r: Option<usize>)
    requires
        distinct_names(count_views(m@)),
    ensures
        match count_lookup(count_views(m@), k@) {
            Some(c) => r matches Some(v) && v as nat == c,
            None => r is None,
        },
{
    let ghost mv = count_views(m@);
    let mut i: usize = 0;
    while i < m.len()
        invariant
            i <= m@.len(),
            mv == count_views(m@),
            distinct_names(mv),
            forall|x: int| 0 <= x < i ==> (#[trigger] mv[x]).0 != k@,
        decreases m@.len() - i,
    {
        if str_eq(m[i].0.as_str(), k.as_str()) {
            assert(mv[i as int].0 == k@);
            let ghost c = choose|x: int| 0 <= x < mv.len() && (#[trigger] mv[x]).0 == k@;
            assert(c == i);
            return Some(m[i].1);
        }
        i = i + 1;
    }
    None
}

/// A found parameter made by `FoundParameter::new`, as values.
pub open spec fn new_param(
    name: Seq<char>,
    diffs: Seq<Seq<char>>,
    status: u16,
    size: usize,
    kind: ReasonKind,
) -> FoundParameterView {
    FoundParameterView {
        name: name_and_value(name).0,
        value: name_and_value(name).1,
        diffs: join(diffs, seq!['|']),
        status,
        size,
        reason_kind: kind,
    }
}

/// What the checks of the chunks have gathered.
pub struct Search {
    /// Changes of the page that happen without any real parameter.
    pub diffs: Vec<String>,
    /// How often each status code (as text) and each change of the page was seen.
    pub green_lines: Vec<(String, usize)>,
    pub found: Vec<FoundParameter>,
    /// The chunks to check again.
    pub remaining: Vec<Vec<String>>,
}

/// The views of chunks of names.
pub open spec fn chunk_views(c: Seq<Vec<String>>) -> Seq<Seq<Seq<char>>> {
    c.map_values(|v: Vec<String>| views(v@))
}

/// A copy of a chunk of names.
fn copy_chunk(v: &Vec<String>) -> (r: Vec<String>)
    ensures
        views(r@) == views(v@),
{
    crate::config::utils::copy_strings(v)
}

/// The diffs already known and the first new change of the page.
pub open spec fn first_new_diff(new_diffs: Seq<Seq<char>>, diffs: Seq<Seq<char>>) -> Option<int> {
    if exists|i: int| 0 <= i < new_diffs.len() && !diffs.contains(#[trigger] new_diffs[i]) {
        Some(
            choose|i: int|
                0 <= i < new_diffs.len() && !diffs.contains(#[trigger] new_diffs[i]) && forall|
                    j: int,
                | 0 <= j < i ==> diffs.contains(#[trigger] new_diffs[j]),
        )
    } else {
        None
    }
}

/// The index of the first change of the page that is not known.
fn first_unknown(known: &Vec<String>, new_diffs: &Vec<String>) -> (r: Option<usize>)
    ensures
        match r {
            Some(i) => i < new_diffs@.len() && !views(known@).contains(views(new_diffs@)[i as int])
                && forall|j: int| 0 <= j < i ==> views(known@).contains(#[trigger] views(new_diffs@)[j]),
            None => forall|j: int|
                0 <= j < new_diffs@.len() ==> views(known@).contains(#[trigger] views(new_diffs@)[j]),
        },
{
    let mut i: usize = 0;
    while i < new_diffs.len()
        invariant
            i <= new_diffs@.len(),
            forall|j: int| 0 <= j < i ==> views(known@).contains(#[trigger] views(new_diffs@)[j]),
        decreases new_diffs@.len() - i,
    {
        if !contains_string(known, &new_diffs[i]) {
            return Some(i);
        }
        i = i + 1;
    }
    None
}

impl Search {
    /// Nothing checked yet, with the changes of the page learned before.
    pub fn new(diffs: Vec<String>) -> (r: Self)
        ensures
            r.wf(),
            r.diffs == diffs,
            r.green_lines@.len() == 0,
            r.found@.len() == 0,
            r.remaining@.len() == 0,
    {
        Search { diffs, green_lines: Vec::new(), found: Vec::new(), remaining: Vec::new() }
    }

    /// Each counted key occurs once.
    pub open spec fn wf(&self) -> bool {
        distinct_names(count_views(self.green_lines@))
    }

    /// After the reflections of a chunk's response were counted: the parameter they point
    /// to is reported (as not reflected when it was alone in its request) unless already
    /// found; a chunk to recheck is kept for later. Tells whether the response is looked
    /// at further: not when the chunk is rechecked or only reflections are searched for.
    pub fn after_reflections(
        &mut self,
        chunk: &Vec<String>,
        reflected: Option<String>,
        repeat: bool,
        status: u16,
        size: usize,
        reflected_only: bool,
    ) -> (r: bool)
        requires
            old(self).wf(),
        ensures
            final(self).wf(),
            r == (!repeat && !reflected_only),
            final(self).diffs == old(self).diffs,
            final(self).green_lines == old(self).green_lines,
            param_views(final(self).found@) == match reflected {
                Some(p) => if !has_name(param_views(old(self).found@), p@) {
                    param_views(old(self).found@).push(
                        new_param(
                            p@,
                            seq!["reflected"@],
                            status,
                            size,
                            if chunk@.len() == 1 {
                                ReasonKind::NotReflected
                            } else {
                                ReasonKind::Reflected
                            },
                        ),
                    )
                } else {
                    param_views(old(self).found@)
                },
                None => param_views(old(self).found@),
            },
            chunk_views(final(self).remaining@) == if repeat {
                chunk_views(old(self).remaining@).push(views(chunk@))
            } else {
                chunk_views(old(self).remaining@)
            },
    {
        match reflected {
            Some(p) => {
                if !self.found.contains_name(p.as_str()) {
                    let kind = if chunk.len() == 1 {
                        ReasonKind::NotReflected
                    } else {
                        ReasonKind::Reflected
                    };
                    let mut why: Vec<String> = Vec::new();
                    why.push(string_from_chars(&crate::text::chars_of("reflected")));
                    let param = FoundParameter::new(p.as_str(), why.as_slice(), status, size, kind);
                    let ghost before = param_views(self.found@);
                    assert(views(why@) =~= seq!["reflected"@]);
                    self.found.push(param);
                    assert(param_views(self.found@) =~= before.push(param@));
                }
            },
            None => {},
        }
        if repeat {
            let ghost before = chunk_views(self.remaining@);
            self.remaining.push(copy_chunk(chunk));
            assert(chunk_views(self.remaining@) =~= before.push(views(chunk@)));
            return false;
        }
        !reflected_only
    }

    /// A response whose code differs from the page's: the code is counted, and after it
    /// was seen more than 50 times the page's stability is checked again (the result
    /// tells so).
    pub fn count_code_change(&mut self, code: u16) -> (r: bool)
        requires
            old(self).wf(),
        ensures
            final(self).wf(),
            final(self).diffs == old(self).diffs,
            final(self).found == old(self).found,
            final(self).remaining == old(self).remaining,
            match count_lookup(count_views(old(self).green_lines@), decimal(code as nat)) {
                Some(n) => {
                    &&& count_views(final(self).green_lines@) == count_insert(
                        count_views(old(self).green_lines@),
                        decimal(code as nat),
                        if n < usize::MAX {
                            n + 1
                        } else {
                            n
                        },
                    )
                    &&& r == (n > 50)
                },
                None => {
                    &&& count_views(final(self).green_lines@) == count_insert(
                        count_views(old(self).green_lines@),
                        decimal(code as nat),
                        0,
                    )
                    &&& !r
                },
            },
    {
        let key = string_from_chars(&decimal_exec(code as u128));
        match count_lookup_exec(&self.green_lines, &key) {
            Some(n) => {
                let next = if n < usize::MAX {
                    n + 1
                } else {
                    n
                };
                count_insert_exec(&mut self.green_lines, &key, next);
                n > 50
            },
            None => {
                count_insert_exec(&mut self.green_lines, &key, 0);
                false
            },
        }
    }

    /// The outcome of checking the page's stability: the run stops when a request
    /// without real parameters no longer gets the page's code; otherwise the count of
    /// the code starts again.
    pub fn after_code_stability_check(&mut self, code: u16, code_matches: bool) -> (r: Result<
        (),
        RunError,
    >)
        requires
            old(self).wf(),
        ensures
            final(self).wf(),
            final(self).diffs == old(self).diffs,
            final(self).found == old(self).found,
            final(self).remaining == old(self).remaining,
            !code_matches ==> r == Err::<(), RunError>(RunError::BecameUnstable)
                && final(self).green_lines == old(self).green_lines,
            code_matches ==> r is Ok && count_views(final(self).green_lines@) == count_insert(
                count_views(old(self).green_lines@),
                decimal(code as nat),
                0,
            ),
    {
        if !code_matches {
            return Err(RunError::BecameUnstable);
        }
        let key = string_from_chars(&decimal_exec(code as u128));
        count_insert_exec(&mut self.green_lines, &key, 0);
        Ok(())
    }

    /// A response whose code differs from the page's: a single parameter is reported as
    /// changing the code; a chunk of several is kept to be checked in smaller pieces.
    pub fn record_code_change(
        &mut self,
        chunk: &Vec<String>,
        initial_code: u16,
        code: u16,
        size: usize,
    )
        requires
            old(self).wf(),
        ensures
            final(self).wf(),
            final(self).diffs == old(self).diffs,
            final(self).green_lines == old(self).green_lines,
            chunk@.len() == 1 ==> param_views(final(self).found@) == param_views(
                old(self).found@,
            ).push(
                new_param(
                    chunk@[0]@,
                    seq![decimal(initial_code as nat) + " -> "@ + decimal(code as nat)],
                    code,
                    size,
                    ReasonKind::Code,
                ),
            ) && final(self).remaining == old(self).remaining,
            chunk@.len() != 1 ==> chunk_views(final(self).remaining@) == chunk_views(
                old(self).remaining@,
            ).push(views(chunk@)) && final(self).found == old(self).found,
    {
        if chunk.len() == 1 {
            let mut why = string_from_chars(&decimal_exec(initial_code as u128));
            why.append(" -> ");
            why.append(string_from_chars(&decimal_exec(code as u128)).as_str());
            let mut whys: Vec<String> = Vec::new();
            let ghost w = why@;
            whys.push(why);
            assert(views(whys@) =~= seq![w]);
            let param = FoundParameter::new(chunk[0].as_str(), whys.as_slice(), code, size, ReasonKind::Code);
            let ghost before = param_views(self.found@);
            self.found.push(param);
            assert(param_views(self.found@) =~= before.push(param@));
        } else {
            let ghost before = chunk_views(self.remaining@);
            self.remaining.push(copy_chunk(chunk));
            assert(chunk_views(self.remaining@) =~= before.push(views(chunk@)));
        }
    }

    /// With `--strict`, a change of the page that a found parameter already caused is
    /// not reported again.
    pub fn caused_before(&self, new_diffs: &Vec<String>) -> (r: bool)
        ensures
            r == exists|i: int|
                0 <= i < self.found@.len() && (#[trigger] self.found@[i]).diffs@ == join(
                    views(new_diffs@),
                    seq!['|'],
                ),
    {
        let bar: [char; 1] = ['|'];
        assert(bar@ == seq!['|']);
        let joined = crate::text::join_exec(
            &crate::runner::utils::strings_as_chars(new_diffs.as_slice()),
            &bar,
        );
        let mut i: usize = 0;
        while i < self.found.len()
            invariant
                i <= self.found@.len(),
                joined@ == join(views(new_diffs@), seq!['|']),
                forall|k: int| 0 <= k < i ==> (#[trigger] self.found@[k]).diffs@ != joined@,
            decreases self.found@.len() - i,
        {
            if crate::text::chars_eq(&crate::text::chars_of(self.found[i].diffs.as_str()), &joined) {
                return true;
            }
            i = i + 1;
        }
        false
    }

    /// Changes of the page that a request with random parameters shows as well.
    pub fn add_diffs(&mut self, more: Vec<String>)
        ensures
            views(final(self).diffs@) == views(old(self).diffs@) + views(more@),
            final(self).green_lines == old(self).green_lines,
            final(self).found == old(self).found,
            final(self).remaining == old(self).remaining,
    {
        let ghost before = self.diffs@;
        let mut more = more;
        let ghost added = more@;
        self.diffs.append(&mut more);
        proof {
            crate::text::lemma_views_add(before, added);
        }
    }

    /// A response with the page's code whose body shows changes: the first change not
    /// known yet decides (its index is returned). It is counted (on the first round), and one seen more than 9
    /// times before becomes a known change. A single parameter not found yet is reported
    /// as changing the page (unless `--strict` and a found parameter caused the same
    /// changes); otherwise the chunk is kept to be checked in smaller pieces.
    pub fn after_body_change(
        &mut self,
        first: bool,
        chunk: &Vec<String>,
        new_diffs: &Vec<String>,
        status: u16,
        size: usize,
        strict: bool,
    ) -> (r: Option<usize>)
        requires
            old(self).wf(),
        ensures
            final(self).wf(),
            strict && final(self).found@.len() > old(self).found@.len() ==> forall|k: int|
                0 <= k < old(self).found@.len() ==> (#[trigger] old(self).found@[k])@.diffs
                    != final(self).found@.last()@.diffs,
            match r {
                Some(i) => first_new_diff(views(new_diffs@), views(old(self).diffs@)) == Some(
                    i as int,
                ),
                None => first_new_diff(views(new_diffs@), views(old(self).diffs@)) is None,
            },
            ({
                let nd = views(new_diffs@);
                let known = views(old(self).diffs@);
                let counts = count_views(old(self).green_lines@);
                let found = param_views(old(self).found@);
                match first_new_diff(nd, known) {
                    None => *final(self) == *old(self),
                    Some(i) => {
                        let d = nd[i];
                        let single = chunk@.len() == 1 && !has_name(found, chunk@[0]@);
                        let skipped = single && strict && exists|k: int|
                            0 <= k < found.len() && (#[trigger] found[k]).diffs == join(
                                nd,
                                seq!['|'],
                            );
                        &&& count_views(final(self).green_lines@) == match count_lookup(
                            counts,
                            d,
                        ) {
                            Some(n) => if first {
                                count_insert(
                                    counts,
                                    d,
                                    if n < usize::MAX {
                                        n + 1
                                    } else {
                                        n
                                    },
                                )
                            } else {
                                counts
                            },
                            None => count_insert(counts, d, 0),
                        }
                        &&& views(final(self).diffs@) == match count_lookup(counts, d) {
                            Some(n) => if n > 9 {
                                known.push(d)
                            } else {
                                known
                            },
                            None => known,
                        }
                        &&& param_views(final(self).found@) == if single && !skipped {
                            found.push(new_param(chunk@[0]@, nd, status, size, ReasonKind::Text))
                        } else {
                            found
                        }
                        &&& chunk_views(final(self).remaining@) == if !single {
                            chunk_views(old(self).remaining@).push(views(chunk@))
                        } else {
                            chunk_views(old(self).remaining@)
                        }
                    },
                }
            }),
    {
        let ghost nd = views(new_diffs@);
        let ghost known = views(self.diffs@);
        let i = match first_unknown(&self.diffs, new_diffs) {
            None => {
                return None;
            },
            Some(i) => i,
        };
        let ghost c = choose|k: int|
            0 <= k < nd.len() && !known.contains(#[trigger] nd[k]) && forall|j: int|
                0 <= j < k ==> known.contains(#[trigger] nd[j]);
        assert(c == i as int) by {
            if c < i {
                assert(known.contains(nd[c]));
            } else if c > i {
                assert(known.contains(nd[i as int]));
            }
        }
        let d = new_diffs[i].clone();
        match count_lookup_exec(&self.green_lines, &d) {
            Some(n) => {
                if first {
                    let next = if n < usize::MAX {
                        n + 1
                    } else {
                        n
                    };
                    count_insert_exec(&mut self.green_lines, &d, next);
                }
                if n > 9 {
                    let ghost before = self.diffs@;
                    self.diffs.push(d.clone());
                    assert(views(self.diffs@) =~= views(before).push(d@));
                }
            },
            None => {
                count_insert_exec(&mut self.green_lines, &d, 0);
            },
        }
        let single = chunk.len() == 1 && !self.found.contains_name(chunk[0].as_str());
        if single {
            let caused = self.caused_before(new_diffs);
            proof {
                if caused {
                    let k = choose|k: int|
                        0 <= k < self.found@.len() && (#[trigger] self.found@[k]).diffs@ == join(
                            nd,
                            seq!['|'],
                        );
                    assert(param_views(self.found@)[k].diffs == join(nd, seq!['|']));
                } else {
                    assert forall|k: int| 0 <= k < self.found@.len() implies (#[trigger] param_views(
                        self.found@,
                    )[k]).diffs != join(nd, seq!['|']) by {
                        assert(self.found@[k].diffs@ != join(nd, seq!['|']));
                    }
                }
            }
            if strict && caused {
                return Some(i);
            }
            let param = FoundParameter::new(
                chunk[0].as_str(),
                new_diffs.as_slice(),
                status,
                size,
                ReasonKind::Text,
            );
            let ghost before = param_views(self.found@);
            self.found.push(param);
            assert(param_views(self.found@) =~= before.push(param@));
        } else {
            let ghost before = chunk_views(self.remaining@);
            self.remaining.push(copy_chunk(chunk));
            assert(chunk_views(self.remaining@) =~= before.push(views(chunk@)));
        }
        Some(i)
    }
}

/// The names in chunks of `size` (the last one may be smaller).
pub open spec fn chunked(names: Seq<Seq<char>>, size: nat) -> Seq<Seq<Seq<char>>>
    recommends
        size > 0,
    decreases names.len(),
{
    if names.len() == 0 || size == 0 {
        Seq::empty()
    } else if names.len() <= size {
        seq![names]
    } else {
        seq![names.take(size as int)] + chunked(names.skip(size as int), size)
    }
}

/// The chunks joined back together.
pub open spec fn flattened(chunks: Seq<Seq<Seq<char>>>) -> Seq<Seq<char>>
    decreases chunks.len(),
{
    if chunks.len() == 0 {
        Seq::empty()
    } else {
        chunks[0] + flattened(chunks.drop_first())
    }
}

/// Chunking keeps every name, in order: the chunks joined back together are the names.
pub proof fn lemma_chunked_flattened(names: Seq<Seq<char>>, size: nat)
    requires
        size > 0,
    ensures
        flattened(chunked(names, size)) == names,
    decreases names.len(),
{
    let c = chunked(names, size);
    if names.len() == 0 {
        assert(c.len() == 0);
        assert(names =~= Seq::<Seq<char>>::empty());
    } else if names.len() <= size {
        assert(c == seq![names]);
        assert(c.drop_first() =~= Seq::<Seq<Seq<char>>>::empty());
        assert(flattened(c.drop_first()) == Seq::<Seq<char>>::empty());
        assert(flattened(c) == c[0] + flattened(c.drop_first()));
        assert(names + Seq::<Seq<char>>::empty() =~= names);
    } else {
        let rest = chunked(names.skip(size as int), size);
        lemma_chunked_flattened(names.skip(size as int), size);
        assert(c == seq![names.take(size as int)] + rest);
        assert(c.drop_first() =~= rest);
        assert(c[0] == names.take(size as int));
        assert(flattened(c) == c[0] + flattened(c.drop_first()));
        assert(names.take(size as int) + names.skip(size as int) =~= names);
    }
}

/// The names in chunks of `size` (the last one may be smaller).
pub fn chunks_of(names: &Vec<String>, size: usize) -> (r: Vec<Vec<String>>)
    requires
        size > 0,
    ensures
        chunk_views(r@) == chunked(views(names@), size as nat),
{
    let ghost nv = views(names@);
    let mut out: Vec<Vec<String>> = Vec::new();
    let mut start: usize = 0;
    assert(nv.skip(0) =~= nv);
    while start < names.len()
        invariant
            start <= names@.len(),
            nv == views(names@),
            size > 0,
            chunk_views(out@) + chunked(nv.skip(start as int), size as nat) == chunked(
                nv,
                size as nat,
            ),
        decreases names@.len() - start,
    {
        let end = if names.len() - start <= size {
            names.len()
        } else {
            start + size
        };
        let mut chunk: Vec<String> = Vec::new();
        let mut k: usize = start;
        while k < end
            invariant
                start <= k <= end <= names@.len(),
                nv == views(names@),
                views(chunk@) == nv.subrange(start as int, k as int),
            decreases end - k,
        {
            let ghost before = views(chunk@);
            chunk.push(names[k].clone());
            assert(views(chunk@) =~= before.push(nv[k as int]));
            assert(nv.subrange(start as int, k + 1) =~= nv.subrange(start as int, k as int).push(
                nv[k as int],
            ));
            k = k + 1;
        }
        let ghost rest = nv.skip(start as int);
        let ghost before = chunk_views(out@);
        out.push(chunk);
        assert(chunk_views(out@) =~= before.push(nv.subrange(start as int, end as int)));
        if end == names.len() {
            assert(rest =~= nv.subrange(start as int, end as int));
            assert(chunked(rest, size as nat) =~= seq![rest]);
            assert(nv.skip(end as int) =~= Seq::<Seq<char>>::empty());
        } else {
            assert(rest.take(size as int) =~= nv.subrange(start as int, end as int));
            assert(rest.skip(size as int) =~= nv.skip(end as int));
        }
        start = end;
    }
    assert(nv.skip(start as int) =~= Seq::<Seq<char>>::empty());
    out
}

/// The chunks of the next round: each kept chunk of several names split in halves
/// (rounded up); single names were decided already.
pub open spec fn next_round(remaining: Seq<Seq<Seq<char>>>) -> Seq<Seq<Seq<char>>>
    decreases remaining.len(),
{
    if remaining.len() == 0 {
        Seq::empty()
    } else {
        let c = remaining.last();
        next_round(remaining.drop_last()) + if c.len() > 1 {
            chunked(c, ((c.len() + 1) / 2) as nat)
        } else {
            Seq::empty()
        }
    }
}

/// Every chunk of a chunking is at most the size and not empty.
proof fn lemma_chunked_sizes(names: Seq<Seq<char>>, size: nat)
    requires
        size > 0,
    ensures
        forall|i: int|
            0 <= i < chunked(names, size).len() ==> 0 < (#[trigger] chunked(names, size)[i]).len()
                <= size,
    decreases names.len(),
{
    if names.len() > size {
        lemma_chunked_sizes(names.skip(size as int), size);
        let rest = chunked(names.skip(size as int), size);
        assert forall|i: int|
            0 <= i < chunked(names, size).len() implies 0 < (#[trigger] chunked(
            names,
            size,
        )[i]).len() <= size by {
            if i > 0 {
                assert(chunked(names, size)[i] == rest[i - 1]);
            }
        }
    }
}

/// The chunks of the next round are each smaller than the largest chunk kept, so
/// the rounds end.
pub proof fn lemma_next_round_smaller(remaining: Seq<Seq<Seq<char>>>, bound: nat)
    requires
        forall|i: int| 0 <= i < remaining.len() ==> (#[trigger] remaining[i]).len() <= bound,
    ensures
        forall|i: int|
            0 <= i < next_round(remaining).len() ==> 0 < (#[trigger] next_round(remaining)[i]).len()
                < bound,
    decreases remaining.len(),
{
    if remaining.len() > 0 {
        let c = remaining.last();
        lemma_next_round_smaller(remaining.drop_last(), bound);
        let front = next_round(remaining.drop_last());
        if c.len() > 1 {
            let half = ((c.len() + 1) / 2) as nat;
            lemma_chunked_sizes(c, half);
            let back = chunked(c, half);
            assert forall|i: int|
                0 <= i < next_round(remaining).len() implies 0 < (#[trigger] next_round(
                remaining,
            )[i]).len() < bound by {
                if i < front.len() {
                    assert(next_round(remaining)[i] == front[i]);
                } else {
                    assert(next_round(remaining)[i] == back[i - front.len()]);
                }
            }
        } else {
            assert(next_round(remaining) =~= front);
        }
    }
}

/// Splits the chunks to check again into halves; single names are dropped.
pub fn next_round_chunks(remaining: &Vec<Vec<String>>) -> (r: Vec<Vec<String>>)
    ensures
        chunk_views(r@) == next_round(chunk_views(remaining@)),
{
    let ghost rv = chunk_views(remaining@);
    let mut out: Vec<Vec<String>> = Vec::new();
    let mut i: usize = 0;
    while i < remaining.len()
        invariant
            i <= remaining@.len(),
            rv == chunk_views(remaining@),
            chunk_views(out@) == next_round(rv.take(i as int)),
        decreases remaining@.len() - i,
    {
        assert(rv.take(i + 1).drop_last() =~= rv.take(i as int));
        assert(rv.take(i + 1).last() == rv[i as int]);
        let c = &remaining[i];
        let ghost before = chunk_views(out@);
        if c.len() > 1 {
            let half = (c.len() - 1) / 2 + 1;
            assert(half == (c@.len() + 1) / 2);
            let mut parts = chunks_of(c, half);
            let ghost pv = chunk_views(parts@);
            out.append(&mut parts);
            assert(chunk_views(out@) =~= before + pv);
        } else {
            assert(chunk_views(out@) =~= before + Seq::<Seq<Seq<char>>>::empty());
        }
        i = i + 1;
    }
    assert(rv.take(i as int) =~= rv);
    out
}

} // verus!
