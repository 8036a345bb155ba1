//! Template matching shared by the two discovery-document dialects: the
//! first link whose relation, template prefix and collection scope all fit
//! the identifier wins, and its template is expanded by literal
//! substitution.

use vstd::prelude::*;

use crate::model::AtUri;
use crate::model::AtUriV;
use crate::text::replace;
use crate::text::spec_replace;
use crate::text::spec_starts_with;
use crate::text::str_eq;
use crate::text::str_starts_with;

verus! {

/// The mathematical value of a discovery-document link, normalized over
/// both dialects: a relation, an optional URL template and scoping
/// properties.
pub struct LinkV {
    pub rel: Seq<char>,
    pub template: Option<Seq<char>>,
    pub properties: Seq<(Seq<char>, Seq<char>)>,
}

/// The value under the first pair of `props` whose key is `k`.
pub open spec fn lookup_prop(props: Seq<(Seq<char>, Seq<char>)>, k: Seq<char>) -> Option<
    Seq<char>,
>
    decreases props.len(),
{
    if props.len() == 0 {
        Option::None
    } else if props[0].0 == k {
        Option::Some(props[0].1)
    } else {
        lookup_prop(props.drop_first(), k)
    }
}

/// The collection scope a link declares under `scope_key`, defaulting to
/// `identity`.
pub open spec fn spec_link_scope(link: LinkV, scope_key: Seq<char>) -> Seq<char> {
    match lookup_prop(link.properties, scope_key) {
        Option::Some(v) => v,
        Option::None => "identity"@,
    }
}

/// The scope an identifier asks for: its collection, defaulting to
/// `identity`.
pub open spec fn spec_uri_scope(uri: AtUriV) -> Seq<char> {
    match uri.collection {
        Option::Some(c) => c,
        Option::None => "identity"@,
    }
}

/// Whether a link applies: relation `rel`, a template present and starting
/// with `https://` followed by the requesting server, and a scope equal to
/// the identifier's.
pub open spec fn link_matches(
    link: LinkV,
    rel: Seq<char>,
    scope_key: Seq<char>,
    server: Seq<char>,
    uri: AtUriV,
) -> bool {
    &&& link.rel == rel
    &&& link.template is Some
    &&& spec_starts_with(link.template->Some_0, "https://"@ + server)
    &&& spec_link_scope(link, scope_key) == spec_uri_scope(uri)
}

/// Template expansion: replace `{identity}`, then `{collection}` and
/// `{rkey}` where the identifier has those fields.
pub open spec fn spec_expand(template: Seq<char>, uri: AtUriV) -> Seq<char> {
    let r1 = spec_replace(template, "{identity}"@, uri.identity);
    let r2 = match uri.collection {
        Option::Some(c) => spec_replace(r1, "{collection}"@, c),
        Option::None => r1,
    };
    match uri.rkey {
        Option::Some(k) => spec_replace(r2, "{rkey}"@, k),
        Option::None => r2,
    }
}

/// The expansion of the first matching link of `links`, if any.
pub open spec fn spec_match_links(
    links: Seq<LinkV>,
    rel: Seq<char>,
    scope_key: Seq<char>,
    server: Seq<char>,
    uri: AtUriV,
) -> Option<Seq<char>>
    decreases links.len(),
{
    if links.len() == 0 {
        Option::None
    } else if link_matches(links[0], rel, scope_key, server, uri) {
        Option::Some(spec_expand(links[0].template->Some_0, uri))
    } else {
        spec_match_links(links.drop_first(), rel, scope_key, server, uri)
    }
}

/// Looks `k` up among `props`, first match.
pub fn lookup_prop_exec<'a>(props: &'a Vec<(String, String)>, k: &str) -> (r: Option<&'a String>)
    ensures
        match r {
            Option::Some(v) => lookup_prop(
                props@.map_values(|p: (String, String)| (p.0@, p.1@)),
                k@,
            ) == Option::Some(v@),
            Option::None => lookup_prop(
                props@.map_values(|p: (String, String)| (p.0@, p.1@)),
                k@,
            ) is None,
        },
{
    let ghost model = props@.map_values(|p: (String, String)| (p.0@, p.1@));
    let mut i: usize = 0;
    proof {
        assert(model.skip(0) =~= model);
    }
    while i < props.len()
        invariant
            model == props@.map_values(|p: (String, String)| (p.0@, p.1@)),
            i <= model.len(),
            lookup_prop(model, k@) == lookup_prop(model.skip(i as int), k@),
        decreases model.len() - i,
    {
        proof {
            assert(model.skip(i as int)[0] == model[i as int]);
            assert(model.skip(i as int).drop_first() =~= model.skip(i as int + 1));
        }
        let pair = &props[i];
        if str_eq(pair.0.as_str(), k) {
            return Option::Some(&pair.1);
        }
        i += 1;
    }
    proof {
        assert(model.skip(model.len() as int) =~= Seq::<(Seq<char>, Seq<char>)>::empty());
    }
    Option::None
}

/// The scope a link declares, defaulting to `identity`.
pub fn link_scope(props: &Vec<(String, String)>, scope_key: &str) -> (r: String)
    ensures
        r@ == spec_link_scope(
            LinkV {
                rel: Seq::empty(),
                template: Option::None,
                properties: props@.map_values(|p: (String, String)| (p.0@, p.1@)),
            },
            scope_key@,
        ),
{
    match lookup_prop_exec(props, scope_key) {
        Option::Some(v) => v.clone(),
        Option::None => String::from_str("identity"),
    }
}

/// The scope an identifier asks for, defaulting to `identity`.
pub fn uri_scope(aturi: &AtUri) -> (r: String)
    ensures
        r@ == spec_uri_scope(aturi@),
{
    match &aturi.collection {
        Option::Some(c) => c.clone(),
        Option::None => String::from_str("identity"),
    }
}

/// Expands a chosen template for an identifier.
pub fn expand_template(template: &str, aturi: &AtUri) -> (r: String)
    ensures
        r@ == spec_expand(template@, aturi@),
{
    let r1 = replace(template, "{identity}", aturi.identity.as_str());
    let r2 = match &aturi.collection {
        Option::Some(c) => replace(r1.as_str(), "{collection}", c.as_str()),
        Option::None => r1,
    };
    match &aturi.rkey {
        Option::Some(k) => replace(r2.as_str(), "{rkey}", k.as_str()),
        Option::None => r2,
    }
}

/// Decides whether one link applies to `aturi` for `server`.
pub fn link_matches_exec(
    rel: &String,
    template: &Option<String>,
    properties: &Vec<(String, String)>,
    rel_const: &str,
    scope_key: &str,
    aturi: &AtUri,
    server: &str,
) -> (r: bool)
    ensures
        r == link_matches(
            LinkV {
                rel: rel@,
                template: match *template {
                    Option::Some(t) => Option::Some(t@),
                    Option::None => Option::None,
                },
                properties: properties@.map_values(|p: (String, String)| (p.0@, p.1@)),
            },
            rel_const@,
            scope_key@,
            server@,
            aturi@,
        ),
{
    if !str_eq(rel.as_str(), rel_const) {
        return false;
    }
    let t = match template {
        Option::Some(t) => t,
        Option::None => { return false },
    };
    let mut prefix = String::from_str("https://");
    prefix.append(server);
    if !str_starts_with(t.as_str(), prefix.as_str()) {
        return false;
    }
    let left = link_scope(properties, scope_key);
    let right = uri_scope(aturi);
    str_eq(left.as_str(), right.as_str())
}

} // verus!
