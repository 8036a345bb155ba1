//! The host-meta discovery dialect: documents served under
//! `/.well-known/host-meta.json`, whose links carry a `template` field, the
//! `http://hopper.at/rel/link` relation and the
//! `http://hopper.at/ns/collection` scope key.

use vstd::prelude::*;

use crate::matching::expand_template;
use crate::matching::link_matches;
use crate::matching::link_matches_exec;
use crate::matching::spec_match_links;
use crate::matching::LinkV;
use crate::model::AtUri;

verus! {

/// The link relation this dialect recognizes.
pub open spec fn rel_link_spec() -> Seq<char> {
    "http://hopper.at/rel/link"@
}

pub fn rel_link() -> (r: &'static str)
    ensures
        r@ == rel_link_spec(),
{
    "http://hopper.at/rel/link"
}

/// The property key that scopes a link to a collection.
pub open spec fn ns_collection_spec() -> Seq<char> {
    "http://hopper.at/ns/collection"@
}

pub fn ns_collection() -> (r: &'static str)
    ensures
        r@ == ns_collection_spec(),
{
    "http://hopper.at/ns/collection"
}

/// The URL a server's host-meta document is fetched from.
pub open spec fn spec_host_meta_url(host: Seq<char>) -> Seq<char> {
    "https://"@ + host + "/.well-known/host-meta.json"@
}

pub fn host_meta_url(hostname: &str) -> (r: String)
    ensures
        r@ == spec_host_meta_url(hostname@),
{
    let mut url = String::from_str("https://");
    url.append(hostname);
    url.append("/.well-known/host-meta.json");
    proof {
        assert(url@ =~= spec_host_meta_url(hostname@));
    }
    url
}

/// One link of a host-meta document.
pub struct Link {
    pub rel: String,
    pub template: Option<String>,
    pub properties: Vec<(String, String)>,
}

impl View for Link {
    type V = LinkV;

    open spec fn view(&self) -> LinkV {
        LinkV {
            rel: self.rel@,
            template: match self.template {
                Option::Some(t) => Option::Some(t@),
                Option::None => Option::None,
            },
            properties: self.properties@.map_values(|p: (String, String)| (p.0@, p.1@)),
        }
    }
}

/// Copies a property list.
pub fn clone_props(props: &Vec<(String, String)>) -> (r: Vec<(String, String)>)
    ensures
        r@.map_values(|p: (String, String)| (p.0@, p.1@)) == props@.map_values(
            |p: (String, String)| (p.0@, p.1@),
        ),
{
    let mut out: Vec<(String, String)> = Vec::new();
    let mut i: usize = 0;
    while i < props.len()
        invariant
            i <= props@.len(),
            out@.len() == i,
            forall|j: int|
                0 <= j < i ==> (#[trigger] out@[j]).0@ == props@[j].0@ && out@[j].1@
                    == props@[j].1@,
        decreases props@.len() - i,
    {
        let pair = &props[i];
        out.push((pair.0.clone(), pair.1.clone()));
        i += 1;
    }
    proof {
        assert(out@.map_values(|p: (String, String)| (p.0@, p.1@)) =~= props@.map_values(
            |p: (String, String)| (p.0@, p.1@),
        ));
    }
    out
}

impl Clone for Link {
    fn clone(&self) -> (r: Self)
        ensures
            r@ == self@,
    {
        let template = match &self.template {
            Option::Some(t) => Option::Some(t.clone()),
            Option::None => Option::None,
        };
        let r = Link { rel: self.rel.clone(), template, properties: clone_props(&self.properties) };
        proof {
            assert(r@ == self@);
        }
        r
    }
}

impl Link {
    /// A link with this dialect's relation, the given template and, when a
    /// collection is given, a scope property for it.
    pub fn new(template: &str, collection: Option<&str>) -> (r: Self)
        ensures
            r@.rel == rel_link_spec(),
            r@.template == Option::Some(template@),
            r@.properties == match collection {
                Option::Some(c) => seq![(ns_collection_spec(), c@)],
                Option::None => Seq::<(Seq<char>, Seq<char>)>::empty(),
            },
    {
        let properties: Vec<(String, String)> = match collection {
            Option::Some(c) => {
                let mut v: Vec<(String, String)> = Vec::new();
                v.push((String::from_str(ns_collection()), String::from_str(c)));
                proof {
                    assert(v@.map_values(|p: (String, String)| (p.0@, p.1@)) =~= seq![
                        (ns_collection_spec(), c@),
                    ]);
                }
                v
            },
            Option::None => {
                let v: Vec<(String, String)> = Vec::new();
                proof {
                    assert(v@.map_values(|p: (String, String)| (p.0@, p.1@)) =~= Seq::<
                        (Seq<char>, Seq<char>),
                    >::empty());
                }
                v
            },
        };
        Link { rel: String::from_str(rel_link()), template: Option::Some(template.to_owned()), properties }
    }
}

/// A host-meta discovery document: top-level properties and an ordered
/// list of links.
pub struct WebHostMeta {
    pub properties: Vec<(String, String)>,
    pub links: Vec<Link>,
}

/// The mathematical value of a [`WebHostMeta`].
pub struct WebHostMetaV {
    pub properties: Seq<(Seq<char>, Seq<char>)>,
    pub links: Seq<LinkV>,
}

impl View for WebHostMeta {
    type V = WebHostMetaV;

    open spec fn view(&self) -> WebHostMetaV {
        WebHostMetaV {
            properties: self.properties@.map_values(|p: (String, String)| (p.0@, p.1@)),
            links: self.links@.map_values(|l: Link| l@),
        }
    }
}

impl Clone for WebHostMeta {
    fn clone(&self) -> (r: Self)
        ensures
            r@ == self@,
    {
        let mut links: Vec<Link> = Vec::new();
        let mut i: usize = 0;
        while i < self.links.len()
            invariant
                i <= self.links@.len(),
                links@.len() == i,
                forall|j: int| 0 <= j < i ==> (#[trigger] links@[j])@ == self.links@[j]@,
            decreases self.links@.len() - i,
        {
            links.push(self.links[i].clone());
            i += 1;
        }
        proof {
            assert(links@.map_values(|l: Link| l@) =~= self.links@.map_values(|l: Link| l@));
        }
        let r = WebHostMeta { properties: clone_props(&self.properties), links };
        proof {
            assert(r@ == self@);
        }
        r
    }
}

impl WebHostMeta {
    /// A document with the given links and no top-level properties.
    pub fn new(links: Vec<Link>) -> (r: Self)
        ensures
            r@.links == links@.map_values(|l: Link| l@),
            r@.properties == Seq::<(Seq<char>, Seq<char>)>::empty(),
    {
        let properties: Vec<(String, String)> = Vec::new();
        let r = WebHostMeta { properties, links };
        proof {
            assert(r@.properties =~= Seq::<(Seq<char>, Seq<char>)>::empty());
        }
        r
    }

    /// The expansion of the first link that matches `aturi` for `server`,
    /// in document order; `None` when no link applies.
    pub fn match_uri(&self, server: &str, aturi: &AtUri) -> (r: Option<String>)
        ensures
            match r {
                Option::Some(u) => spec_match_links(
                    self@.links,
                    rel_link_spec(),
                    ns_collection_spec(),
                    server@,
                    aturi@,
                ) == Option::Some(u@),
                Option::None => spec_match_links(
                    self@.links,
                    rel_link_spec(),
                    ns_collection_spec(),
                    server@,
                    aturi@,
                ) is None,
            },
    {
        let ghost model = self@.links;
        let mut i: usize = 0;
        proof {
            assert(model.skip(0) =~= model);
        }
        while i < self.links.len()
            invariant
                model == self@.links,
                self@.links == self.links@.map_values(|l: Link| l@),
                i <= model.len(),
                spec_match_links(model, rel_link_spec(), ns_collection_spec(), server@, aturi@)
                    == spec_match_links(
                    model.skip(i as int),
                    rel_link_spec(),
                    ns_collection_spec(),
                    server@,
                    aturi@,
                ),
            decreases model.len() - i,
        {
            proof {
                assert(model.skip(i as int)[0] == model[i as int]);
                assert(model.skip(i as int).drop_first() =~= model.skip(i as int + 1));
            }
            let link = &self.links[i];
            proof {
                assert(link@ == model[i as int]);
            }
            if link_matches_exec(
                &link.rel,
                &link.template,
                &link.properties,
                rel_link(),
                ns_collection(),
                aturi,
                server,
            ) {
                let t = match &link.template {
                    Option::Some(t) => t,
                    Option::None => {
                        proof {
                            assert(link_matches(
                                link@,
                                rel_link_spec(),
                                ns_collection_spec(),
                                server@,
                                aturi@,
                            ));
                            assert(false);
                        }
                        return Option::None;
                    },
                };
                let expanded = expand_template(t.as_str(), aturi);
                return Option::Some(expanded);
            }
            i += 1;
        }
        proof {
            assert(model.skip(model.len() as int) =~= Seq::<LinkV>::empty());
        }
        Option::None
    }
}

} // verus!
