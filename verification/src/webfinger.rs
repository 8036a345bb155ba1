//! The webfinger discovery dialect: documents served under
//! `/.well-known/webfinger`, whose links carry an `href` field, the
//! `https://hopper.at/spec/schema/1.0/link` relation and the
//! `https://hopper.at/spec/schema/1.0/link#collection` scope key, and whose
//! `subject` must echo the requested account.

use vstd::prelude::*;

use crate::matching::expand_template;
use crate::matching::link_matches;
use crate::matching::link_matches_exec;
use crate::matching::spec_match_links;
use crate::matching::LinkV;
use crate::model::AtUri;
use crate::text::str_eq;
use crate::webhostmeta::clone_props;

verus! {

/// The error message remembered when a server's webfinger subject does not
/// echo the requested account.
pub fn error_subject_mismatch() -> (r: &'static str)
    ensures
        r@
            == "error-webfinger-subject-mismatch The subject of the webfinger response does not match the requested acct"@,
{
    "error-webfinger-subject-mismatch The subject of the webfinger response does not match the requested acct"
}

/// The link relation this dialect recognizes.
pub open spec fn wf_rel_link_spec() -> Seq<char> {
    "https://hopper.at/spec/schema/1.0/link"@
}

pub fn wf_rel_link() -> (r: &'static str)
    ensures
        r@ == wf_rel_link_spec(),
{
    "https://hopper.at/spec/schema/1.0/link"
}

/// The property key that scopes a link to a collection.
pub open spec fn wf_ns_collection_spec() -> Seq<char> {
    "https://hopper.at/spec/schema/1.0/link#collection"@
}

pub fn wf_ns_collection() -> (r: &'static str)
    ensures
        r@ == wf_ns_collection_spec(),
{
    "https://hopper.at/spec/schema/1.0/link#collection"
}

/// One link of a webfinger document; the template stands in `href`.
pub struct Link {
    pub rel: String,
    pub href: String,
    pub properties: Vec<(String, String)>,
}

impl View for Link {
    type V = LinkV;

    open spec fn view(&self) -> LinkV {
        LinkV {
            rel: self.rel@,
            template: Option::Some(self.href@),
            properties: self.properties@.map_values(|p: (String, String)| (p.0@, p.1@)),
        }
    }
}

impl Clone for Link {
    fn clone(&self) -> (r: Self)
        ensures
            r@ == self@,
    {
        let r = Link {
            rel: self.rel.clone(),
            href: self.href.clone(),
            properties: clone_props(&self.properties),
        };
        proof {
            assert(r@ == self@);
        }
        r
    }
}

/// A webfinger document: the echoed subject, top-level properties and an
/// ordered list of links.
pub struct Webfinger {
    pub subject: String,
    pub properties: Vec<(String, String)>,
    pub links: Vec<Link>,
}

/// The mathematical value of a [`Webfinger`].
pub struct WebfingerV {
    pub subject: Seq<char>,
    pub properties: Seq<(Seq<char>, Seq<char>)>,
    pub links: Seq<LinkV>,
}

impl View for Webfinger {
    type V = WebfingerV;

    open spec fn view(&self) -> WebfingerV {
        WebfingerV {
            subject: self.subject@,
            properties: self.properties@.map_values(|p: (String, String)| (p.0@, p.1@)),
            links: self.links@.map_values(|l: Link| l@),
        }
    }
}

/// The account form a server must echo as its webfinger subject.
pub open spec fn spec_acct(host: Seq<char>) -> Seq<char> {
    "acct:"@ + host
}

pub fn acct_of(hostname: &str) -> (r: String)
    ensures
        r@ == spec_acct(hostname@),
{
    let mut s = String::from_str("acct:");
    s.append(hostname);
    s
}

impl Webfinger {
    /// Whether the document's subject echoes `acct:` followed by the
    /// queried hostname exactly.
    pub fn subject_matches(&self, hostname: &str) -> (r: bool)
        ensures
            r == (self@.subject == spec_acct(hostname@)),
    {
        let acct = acct_of(hostname);
        str_eq(self.subject.as_str(), acct.as_str())
    }

    /// The expansion of the first link that matches `aturi` for `server`,
    /// in document order; `None` when no link applies.
    pub fn match_uri(&self, server: &str, aturi: &AtUri) -> (r: Option<String>)
        ensures
            match r {
                Option::Some(u) => spec_match_links(
                    self@.links,
                    wf_rel_link_spec(),
                    wf_ns_collection_spec(),
                    server@,
                    aturi@,
                ) == Option::Some(u@),
                Option::None => spec_match_links(
                    self@.links,
                    wf_rel_link_spec(),
                    wf_ns_collection_spec(),
                    server@,
                    aturi@,
                ) is None,
            },
    {
        let ghost model = self@.links;
        let mut i: usize = 0;
        proof {
            assert(model.skip(0) =~= model);
        }
        while i < self.links.len()
            invariant
                model == self@.links,
                self@.links == self.links@.map_values(|l: Link| l@),
                i <= model.len(),
                spec_match_links(
                    model,
                    wf_rel_link_spec(),
                    wf_ns_collection_spec(),
                    server@,
                    aturi@,
                ) == spec_match_links(
                    model.skip(i as int),
                    wf_rel_link_spec(),
                    wf_ns_collection_spec(),
                    server@,
                    aturi@,
                ),
            decreases model.len() - i,
        {
            proof {
                assert(model.skip(i as int)[0] == model[i as int]);
                assert(model.skip(i as int).drop_first() =~= model.skip(i as int + 1));
            }
            let link = &self.links[i];
            proof {
                assert(link@ == model[i as int]);
            }
            let template = Option::Some(link.href.clone());
            if link_matches_exec(
                &link.rel,
                &template,
                &link.properties,
                wf_rel_link(),
                wf_ns_collection(),
                aturi,
                server,
            ) {
                proof {
                    assert(link_matches(
                        link@,
                        wf_rel_link_spec(),
                        wf_ns_collection_spec(),
                        server@,
                        aturi@,
                    ));
                }
                let expanded = expand_template(link.href.as_str(), aturi);
                return Option::Some(expanded);
            }
            i += 1;
        }
        proof {
            assert(model.skip(model.len() as int) =~= Seq::<LinkV>::empty());
        }
        Option::None
    }
}

/// The `k=v&` rendering of query parameters, in order.
pub open spec fn spec_stringify(q: Seq<(Seq<char>, Seq<char>)>) -> Seq<char>
    decreases q.len(),
{
    if q.len() == 0 {
        Seq::empty()
    } else {
        q[0].0 + "="@ + q[0].1 + "&"@ + spec_stringify(q.drop_first())
    }
}

/// Renders query parameters as `k=v&` pairs, in order.
pub fn stringify(query: Vec<(&str, &str)>) -> (r: String)
    ensures
        r@ == spec_stringify(query@.map_values(|p: (&str, &str)| (p.0@, p.1@))),
{
    let ghost model = query@.map_values(|p: (&str, &str)| (p.0@, p.1@));
    let mut out = String::new();
    let mut i: usize = 0;
    proof {
        assert(model.skip(0) =~= model);
        assert(out@ + spec_stringify(model) =~= spec_stringify(model));
    }
    while i < query.len()
        invariant
            model == query@.map_values(|p: (&str, &str)| (p.0@, p.1@)),
            i <= model.len(),
            spec_stringify(model) == out@ + spec_stringify(model.skip(i as int)),
        decreases model.len() - i,
    {
        let ghost pre = out@;
        proof {
            assert(model.skip(i as int)[0] == model[i as int]);
            assert(model.skip(i as int).drop_first() =~= model.skip(i as int + 1));
        }
        let pair = &query[i];
        out.append(pair.0);
        out.append("=");
        out.append(pair.1);
        out.append("&");
        proof {
            assert(pre + spec_stringify(model.skip(i as int)) =~= out@ + spec_stringify(
                model.skip(i as int + 1),
            ));
        }
        i += 1;
    }
    proof {
        assert(model.skip(model.len() as int) =~= Seq::<(Seq<char>, Seq<char>)>::empty());
        assert(out@ + Seq::<char>::empty() =~= out@);
    }
    out
}

/// What `urlencoding::encode` returns: a function of the input characters
/// alone.
pub uninterp spec fn url_encoded(s: Seq<char>) -> Seq<char>;

/// Relies on `urlencoding::encode`, which percent-encodes every byte
/// except ASCII alphanumerics and `-`, `_`, `.`, `~`, deterministically in
/// its input.
#[verifier::external_body]
fn percent_encode(s: &str) -> (r: String)
    ensures
        r@ == url_encoded(s@),
{
    urlencoding::encode(s).into_owned()
}

/// The URL a server's webfinger document is fetched from: the well-known
/// path with the percent-encoded account as the `resource` parameter.
pub open spec fn spec_webfinger_url(host: Seq<char>) -> Seq<char> {
    "https://"@ + host + "/.well-known/webfinger?"@ + spec_stringify(
        seq![("resource"@, url_encoded(spec_acct(host)))],
    )
}

pub fn webfinger_url(hostname: &str) -> (r: String)
    ensures
        r@ == spec_webfinger_url(hostname@),
{
    let acct = acct_of(hostname);
    let encoded = percent_encode(acct.as_str());
    let mut args: Vec<(&str, &str)> = Vec::new();
    args.push(("resource", encoded.as_str()));
    let ghost model = args@.map_values(|p: (&str, &str)| (p.0@, p.1@));
    proof {
        assert(model =~= seq![("resource"@, url_encoded(spec_acct(hostname@)))]);
    }
    let q = stringify(args);
    let mut url = String::from_str("https://");
    url.append(hostname);
    url.append("/.well-known/webfinger?");
    url.append(q.as_str());
    proof {
        assert(url@ =~= spec_webfinger_url(hostname@));
    }
    url
}

} // verus!
