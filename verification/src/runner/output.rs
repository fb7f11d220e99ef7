//! The output of a run: what was found for one url and method, and how it is printed.
use vstd::prelude::*;

use crate::config::structs::Config;
use crate::network::request::{is_sorted_of, query_text, request_text, Request, RequestDefaults};
use crate::network::response::Response;
use crate::network::utils::{header_views, InjectionPlace};
use crate::runner::utils::{
    colored_param, copy_parameter, param_views, FoundParameter, FoundParameterView,
};
use crate::text::{
    chars_of, contains, contains_exec, join, replace, replace_exec, str_eq, string_from_chars,
    views,
};
use crate::utils::{paint, painted, Color};
use vstd::string::StringSliceAdditionalSpecFns;

verus! {

/// What a run found for one url and method.
pub struct RunnerOutput {
    /// The request's method.
    pub method: String,
    /// The url without the injection point.
    pub url: String,
    /// The initial response's code.
    pub status: u16,
    /// The initial response's size in bytes (headers and body).
    pub size: usize,
    pub found_params: Vec<FoundParameter>,
    pub injection_place: InjectionPlace,
    /// The query with the found parameters, for the `url` output.
    pub query: String,
    /// The request with the found parameters, for the `request` output.
    pub request: String,
}

/// The url of the output: without its default port, and without the injection point
/// when parameters go into the query.
pub open spec fn output_url(defaults: RequestDefaults) -> Seq<char> {
    let u = defaults.spec_url_without_default_port();
    if defaults.injection_place == InjectionPlace::Path {
        replace(replace(u, "?%s"@, Seq::empty()), "&%s"@, Seq::empty())
    } else {
        u
    }
}

/// The parameters a request with the found ones is made of: the name (which gets a
/// random value), or `name%=%value` for a parameter found with its own value, which the
/// request then carries as it is (`admin=true`).
pub open spec fn output_parameters(found: Seq<FoundParameterView>) -> Seq<Seq<char>> {
    found.map_values(
        |p: FoundParameterView|
            match p.value {
                Some(v) => p.name + "%=%"@ + v,
                None => p.name,
            },
    )
}

/// `r` is a request as `Request::new` makes it from the defaults and the parameters.
pub open spec fn fresh_request(r: Request, defaults: &RequestDefaults, params: Seq<Seq<char>>) -> bool {
    &&& r.defaults == defaults
    &&& views(r.parameters@) == params
    &&& crate::text::pair_views(r.prepared_parameters@) == crate::text::pair_views(
        defaults.parameters@,
    )
    &&& r.non_random_parameters@.len() == 0
    &&& r.headers@.len() == 0
    &&& r.body@ == defaults.body@
    &&& r.path@ == defaults.path@
    &&& !r.prepared
}

/// `query` is the query of a prepared request with the found parameters.
pub open spec fn is_output_query(
    query: Seq<char>,
    defaults: &RequestDefaults,
    found: Seq<FoundParameterView>,
) -> bool {
    exists|before: Request, r: Request|
        #![trigger r.prepared_by(before, None)]
        fresh_request(before, defaults, output_parameters(found)) && r.prepared_by(before, None)
            && query == query_text(
            r.defaults.template@,
            r.defaults.joiner@,
            r.defaults.encode,
            crate::text::pair_views(r.prepared_parameters@),
        )
}

/// Every found parameter has its own value, and neither its name nor its value holds `=`
/// (as `FoundParameter::new` makes them from `name=value`).
pub open spec fn all_found_with_values(found: Seq<FoundParameterView>) -> bool {
    forall|i: int|
        0 <= i < found.len() ==> ((#[trigger] found[i]).value matches Some(v) && !found[i].name.contains(
            '=',
        ) && !v.contains('='))
}

/// The names and values of found parameters.
pub open spec fn found_pairs(found: Seq<FoundParameterView>) -> Seq<(Seq<char>, Seq<char>)> {
    found.map_values(
        |p: FoundParameterView|
            (p.name, match p.value {
                Some(v) => v,
                None => Seq::empty(),
            }),
    )
}

/// Found parameters that all have values become fixed pairs of a request, and none
/// gets a random value.
proof fn lemma_output_pairs(found: Seq<FoundParameterView>)
    requires
        all_found_with_values(found),
    ensures
        crate::network::request::nonrandom_pairs(output_parameters(found)) == found_pairs(found),
        crate::network::request::random_names(output_parameters(found)) == Seq::<Seq<char>>::empty(),
    decreases found.len(),
{
    reveal_strlit("%=%");
    if found.len() > 0 {
        let d = found.drop_last();
        assert(all_found_with_values(d)) by {
            assert forall|i: int| 0 <= i < d.len() implies ((#[trigger] d[i]).value matches Some(v)
                && !d[i].name.contains('=') && !v.contains('=')) by {
                assert(d[i] == found[i]);
            }
        }
        lemma_output_pairs(d);
        let ps = output_parameters(found);
        assert(ps.drop_last() =~= output_parameters(d));
        let last = found.last();
        assert(last == found[found.len() - 1]);
        let v = last.value->0;
        assert(ps.last() == last.name + "%=%"@ + v);
        crate::text::lemma_split_value_separator(last.name, v);
        assert(crate::network::request::value_separator() == "%=%"@);
        assert(found_pairs(found) =~= found_pairs(d).push((last.name, v)));
        assert(ps.last().len() > 0);
    }
}

/// The query of the `url` output, where every found parameter has its own value: the
/// request's own parameters, then each found parameter with its value, in the order
/// found, written with the template and joined (`admin=true`), with no random value.
pub proof fn lemma_output_query_values(
    query: Seq<char>,
    defaults: &RequestDefaults,
    found: Seq<FoundParameterView>,
)
    requires
        is_output_query(query, defaults, found),
        all_found_with_values(found),
    ensures
        query == query_text(
            defaults.template@,
            defaults.joiner@,
            defaults.encode,
            crate::text::pair_views(defaults.parameters@) + found_pairs(found),
        ),
{
    let (before, r) = choose|before: Request, r: Request|
        #![trigger r.prepared_by(before, None)]
        fresh_request(before, defaults, output_parameters(found)) && r.prepared_by(before, None)
            && query == query_text(
            r.defaults.template@,
            r.defaults.joiner@,
            r.defaults.encode,
            crate::text::pair_views(r.prepared_parameters@),
        );
    lemma_output_pairs(found);
    let ps = views(before.parameters@);
    assert(ps == output_parameters(found));
    assert(ps.push(""@).drop_last() =~= ps);
    assert(""@.len() == 0) by {
        reveal_strlit("");
    }
    assert(crate::network::request::random_names(ps.push(""@)) == crate::network::request::random_names(ps));
    let params = crate::text::pair_views(r.prepared_parameters@);
    let base = crate::text::pair_views(before.prepared_parameters@);
    let fixed = found_pairs(found);
    assert(params.len() == base.len() + fixed.len());
    assert(params =~= params.take((base.len() + fixed.len()) as int));
}

/// `text` is a prepared request with the found parameters, printed.
pub open spec fn is_output_request(
    text: Seq<char>,
    defaults: &RequestDefaults,
    found: Seq<FoundParameterView>,
) -> bool {
    exists|before: Request, r: Request, sorted: Seq<(Seq<char>, Seq<char>)>|
        #![trigger r.prepared_by(before, None), is_sorted_of(sorted, header_views(r.headers@))]
        fresh_request(before, defaults, output_parameters(found)) && r.prepared_by(before, None)
            && is_sorted_of(sorted, header_views(r.headers@)) && text == request_text(
            r.defaults.method@,
            r.path@,
            r.defaults.host@,
            sorted,
            r.body@,
        )
}

/// The line of the `url` output: the url with the query at the injection point (added
/// after `?` or `&` when parameters go into the query and some were found).
pub open spec fn url_line(o: RunnerOutput) -> Seq<char> {
    let line = if o.found_params@.len() > 0 && o.injection_place == InjectionPlace::Path {
        if !contains(o.url@, "?"@) {
            o.url@ + "?%s"@
        } else {
            o.url@ + "&%s"@
        }
    } else {
        o.url@
    };
    replace(line, "%s"@, o.query@)
}

/// `s` is the output in the given format: the url line for `url`, the request for
/// `request`, and otherwise the method in blue, the url and the found parameters colored
/// and joined by `, ` (`METHOD url % a, b`).
pub open spec fn parsed_output(o: RunnerOutput, format: Seq<char>, s: Seq<char>) -> bool {
    if format == "url"@ {
        s == url_line(o)
    } else if format == "request"@ {
        s == o.request@
    } else {
        exists|m: Seq<char>, names: Seq<Seq<char>>|
            #![trigger painted(o.method@, Color::Blue, m), join(names, ", "@)]
            painted(o.method@, Color::Blue, m) && names.len() == o.found_params@.len() && (forall|
                i: int,
            |
                0 <= i < names.len() ==> colored_param(
                    (#[trigger] o.found_params@[i])@,
                    names[i],
                )) && s == m + " "@ + o.url@ + " % "@ + join(names, ", "@)
    }
}

impl RunnerOutput {
    /// The output for the request defaults, the initial response and the found parameters.
    pub fn new(
        request_defaults: &RequestDefaults,
        initial_response: &Response,
        found_params: Vec<FoundParameter>,
    ) -> (r: Self)
        ensures
            r.method@ == request_defaults.method@,
            r.url@ == output_url(*request_defaults),
            r.status == initial_response.code,
            r.size == vstd::utf8::encode_utf8(initial_response.text@).len(),
            r.found_params == found_params,
            r.injection_place == request_defaults.injection_place,
            r.query@.len() == 0,
            r.request@.len() == 0,
    {
        let url = request_defaults.url_without_default_port();
        let url = if request_defaults.injection_place == InjectionPlace::Path {
            let once = replace_exec(&chars_of(url.as_str()), &chars_of("?%s"), &Vec::new());
            string_from_chars(&replace_exec(&once, &chars_of("&%s"), &Vec::new()))
        } else {
            url
        };
        RunnerOutput {
            method: request_defaults.method.clone(),
            url,
            status: initial_response.code,
            size: initial_response.text.as_str().as_bytes().len(),
            found_params,
            injection_place: request_defaults.injection_place,
            query: String::new(),
            request: String::new(),
        }
    }

    /// Fills the query (for the `url` output) or the request (for the `request` output)
    /// with a prepared request of the found parameters; other formats need neither. A
    /// parameter found with its own value (`admin=true`) is written with that value, the
    /// others with random ones.
    pub fn prepare(&mut self, config: &Config, request_defaults: &RequestDefaults)
        ensures
            final(self).method == old(self).method,
            final(self).url == old(self).url,
            final(self).status == old(self).status,
            final(self).size == old(self).size,
            final(self).found_params == old(self).found_params,
            final(self).injection_place == old(self).injection_place,
            config.output_format@ == "url"@ ==> final(self).request == old(self).request
                && is_output_query(
                final(self).query@,
                request_defaults,
                param_views(old(self).found_params@),
            ),
            config.output_format@ == "url"@ && all_found_with_values(param_views(old(self).found_params@))
                ==> final(self).query@ == query_text(
                request_defaults.template@,
                request_defaults.joiner@,
                request_defaults.encode,
                crate::text::pair_views(request_defaults.parameters@) + found_pairs(
                    param_views(old(self).found_params@),
                ),
            ),
            config.output_format@ == "request"@ ==> final(self).query == old(self).query
                && is_output_request(
                final(self).request@,
                request_defaults,
                param_views(old(self).found_params@),
            ),
            config.output_format@ != "url"@ && config.output_format@ != "request"@ ==> *final(self)
                == *old(self),
    {
        proof {
            reveal_strlit("url");
            reveal_strlit("request");
            assert("url"@.len() != "request"@.len());
        }
        let is_url = str_eq(config.output_format.as_str(), "url");
        let is_request = str_eq(config.output_format.as_str(), "request");
        if !is_url && !is_request {
            return;
        }
        let ghost fv = param_views(self.found_params@);
        let mut params: Vec<String> = Vec::new();
        let mut i: usize = 0;
        while i < self.found_params.len()
            invariant
                i <= self.found_params@.len(),
                *self == *old(self),
                fv == param_views(self.found_params@),
                views(params@) == output_parameters(fv).take(i as int),
            decreases self.found_params@.len() - i,
        {
            let x = &self.found_params[i];
            let entry = match &x.value {
                None => x.name.clone(),
                Some(v) => {
                    let mut e = x.name.clone();
                    e.append("%=%");
                    e.append(v.as_str());
                    e
                },
            };
            assert(entry@ == output_parameters(fv)[i as int]);
            let ghost before = views(params@);
            params.push(entry);
            assert(views(params@) =~= before.push(entry@));
            assert(output_parameters(fv).take(i + 1) =~= output_parameters(fv).take(i as int).push(
                entry@,
            ));
            i = i + 1;
        }
        assert(output_parameters(fv).take(i as int) =~= output_parameters(fv));
        let mut request = Request::new(request_defaults, params);
        let ghost before = request;
        request.prepare(None);
        assert(request.prepared_by(before, None));
        if is_url {
            self.query = request.make_query();
            proof {
                if all_found_with_values(fv) {
                    assert(is_output_query(self.query@, request_defaults, fv));
                    lemma_output_query_values(self.query@, request_defaults, fv);
                }
            }
        } else {
            let ghost prepared = request;
            let text = request.print();
            assert(request == prepared);
            let ghost sorted = choose|sorted: Seq<(Seq<char>, Seq<char>)>|
                #[trigger] is_sorted_of(sorted, header_views(request.headers@)) && text@
                    == request_text(
                    request.defaults.method@,
                    request.path@,
                    request.defaults.host@,
                    sorted,
                    request.body@,
                );
            assert(is_sorted_of(sorted, header_views(request.headers@)));
            assert(request.prepared_by(before, None));
            self.request = text;
        }
    }

    /// The output in the configured format (see `parsed_output`).
    pub fn parse(&self, config: &Config) -> (r: String)
        ensures
            parsed_output(*self, config.output_format@, r@),
    {
        if str_eq(config.output_format.as_str(), "url") {
            let url = chars_of(self.url.as_str());
            let line = if self.found_params.len() > 0 && self.injection_place == InjectionPlace::Path {
                let mut l = self.url.clone();
                if !contains_exec(&url, &chars_of("?")) {
                    l.append("?%s");
                } else {
                    l.append("&%s");
                }
                l
            } else {
                self.url.clone()
            };
            return string_from_chars(
                &replace_exec(&chars_of(line.as_str()), &chars_of("%s"), &chars_of(self.query.as_str())),
            );
        }
        if str_eq(config.output_format.as_str(), "request") {
            return self.request.clone();
        }
        let m = paint(self.method.as_str(), Color::Blue);
        let mut names: Vec<Vec<char>> = Vec::new();
        let mut i: usize = 0;
        while i < self.found_params.len()
            invariant
                i <= self.found_params@.len(),
                names@.len() == i,
                forall|k: int|
                    0 <= k < i ==> colored_param(
                        (#[trigger] self.found_params@[k])@,
                        names@[k]@,
                    ),
            decreases self.found_params@.len() - i,
        {
            let colored = self.found_params[i].get_colored();
            names.push(chars_of(colored.as_str()));
            i = i + 1;
        }
        let joined = crate::text::join_exec(&names, &chars_of(", "));
        let mut out = m;
        out.append(" ");
        out.append(self.url.as_str());
        out.append(" % ");
        out.append(string_from_chars(&joined).as_str());
        let ghost nv = names@.map_values(|v: Vec<char>| v@);
        assert(forall|k: int|
            0 <= k < nv.len() ==> colored_param((#[trigger] self.found_params@[k])@, nv[k]));
        assert(painted(self.method@, Color::Blue, m@));
        assert(join(nv, ", "@) == joined@);
        out
    }
}

/// Printing a list of outputs.
pub trait ParseOutputs {
    fn parse_output(&self, config: &Config) -> Option<String>;
}

impl ParseOutputs for Vec<RunnerOutput> {
    /// The outputs one after another in the configured format; `None` for the `json`
    /// format, which is written from the serialized outputs instead.
    fn parse_output(&self, config: &Config) -> (r: Option<String>)
        ensures
            config.output_format@ == "json"@ <==> r is None,
            r matches Some(s) ==> exists|parts: Seq<Seq<char>>|
                #![trigger join(parts, Seq::<char>::empty())]
                parts.len() == self@.len() && (forall|i: int|
                    0 <= i < parts.len() ==> parsed_output(
                        #[trigger] self@[i],
                        config.output_format@,
                        parts[i],
                    )) && s@ == join(parts, Seq::<char>::empty()),
    {
        if str_eq(config.output_format.as_str(), "json") {
            return None;
        }
        let mut parts: Vec<Vec<char>> = Vec::new();
        let mut i: usize = 0;
        while i < self.len()
            invariant
                i <= self@.len(),
                parts@.len() == i,
                forall|k: int|
                    0 <= k < i ==> parsed_output(
                        #[trigger] self@[k],
                        config.output_format@,
                        parts@[k]@,
                    ),
            decreases self@.len() - i,
        {
            let line = self[i].parse(config);
            parts.push(chars_of(line.as_str()));
            i = i + 1;
        }
        let joined = crate::text::join_exec(&parts, &Vec::new());
        let ghost pv = parts@.map_values(|v: Vec<char>| v@);
        assert(forall|k: int|
            0 <= k < pv.len() ==> parsed_output(#[trigger] self@[k], config.output_format@, pv[k]));
        assert(join(pv, Seq::<char>::empty()) == joined@);
        Some(string_from_chars(&joined))
    }
}

} // verus!
