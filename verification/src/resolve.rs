//! The resolution orchestrator: hashes the raw input and the ordered
//! server list into a cache key, consults the resolution cache, then walks
//! the servers in order through the discovery cache, matching templates
//! and memoizing the outcome. The network fetch itself is the caller's:
//! the orchestrator says which hostname to fetch and takes the outcome
//! back.

use vstd::prelude::*;
use vstd::string::StringSliceAdditionalSpecFns;
use vstd::utf8::encode_utf8;

use crate::cache::DiscoveryCache;
use crate::cache::ResolutionCache;
use crate::cache::ResolveAtUriResult;
use crate::cache::ResolveAtUriResultV;
use crate::cache::ResolveWebHostMetaResult;
use crate::cache::ResolveWebHostMetaResultV;
use crate::matching::spec_match_links;
use crate::model::AtUri;
use crate::model::AtUriV;
use crate::text::spec_dec;
use crate::text::spec_split;
use crate::text::spec_trim;
use crate::text::split_char;
use crate::text::str_eq;
use crate::text::trim;
use crate::text::u64_to_dec;
use crate::webhostmeta::ns_collection_spec;
use crate::webhostmeta::rel_link_spec;
use crate::webhostmeta::WebHostMetaV;

verus! {

/// What `cityhasher::hash::<u64>` returns: a function of the input bytes
/// alone.
pub uninterp spec fn city_hash64(data: Seq<u8>) -> u64;

/// Relies on `cityhasher::hash::<u64>` (CityHash64), deterministic in its
/// input bytes.
#[verifier::external_body]
fn hash_bytes(data: &Vec<u8>) -> (r: u64)
    ensures
        r == city_hash64(data@),
{
    cityhasher::hash(data.as_slice())
}

/// The UTF-8 bytes of the candidate servers, in order.
pub open spec fn bytes_of_servers(servers: Seq<Seq<char>>) -> Seq<u8>
    decreases servers.len(),
{
    if servers.len() == 0 {
        Seq::empty()
    } else {
        encode_utf8(servers[0]) + bytes_of_servers(servers.drop_first())
    }
}

/// The bytes hashed into a resolution cache key: the raw input followed by
/// every candidate server, in order.
pub open spec fn spec_key_bytes(input: Seq<char>, servers: Seq<Seq<char>>) -> Seq<u8> {
    encode_utf8(input) + bytes_of_servers(servers)
}

/// The resolution cache key: the hash of input and servers, in decimal.
pub open spec fn spec_cache_key(input: Seq<char>, servers: Seq<Seq<char>>) -> Seq<char> {
    spec_dec(city_hash64(spec_key_bytes(input, servers)) as int)
}

/// Appends the UTF-8 bytes of `s`.
fn append_bytes(data: &mut Vec<u8>, s: &str)
    ensures
        final(data)@ == old(data)@ + encode_utf8(s@),
{
    let bs = s.as_bytes();
    let mut j: usize = 0;
    proof {
        assert(data@ + bs@.subrange(0, 0) =~= data@);
    }
    while j < bs.len()
        invariant
            j <= bs@.len(),
            bs@ == encode_utf8(s@),
            data@ == old(data)@ + bs@.subrange(0, j as int),
        decreases bs@.len() - j,
    {
        let ghost pre = data@;
        data.push(bs[j]);
        proof {
            assert(data@ =~= old(data)@ + bs@.subrange(0, j as int + 1));
        }
        j += 1;
    }
    proof {
        assert(bs@.subrange(0, bs@.len() as int) =~= bs@);
    }
}

/// The deterministic cache key for resolving `aturi_input` against
/// `servers`, in order.
pub fn cache_key(aturi_input: &str, servers: &Vec<String>) -> (r: String)
    ensures
        r@ == spec_cache_key(aturi_input@, servers@.map_values(|s: String| s@)),
{
    let ghost model = servers@.map_values(|s: String| s@);
    let mut data: Vec<u8> = Vec::new();
    append_bytes(&mut data, aturi_input);
    let mut i: usize = 0;
    proof {
        assert(model.skip(0) =~= model);
        assert(data@ =~= encode_utf8(aturi_input@));
    }
    while i < servers.len()
        invariant
            model == servers@.map_values(|s: String| s@),
            i <= model.len(),
            spec_key_bytes(aturi_input@, model) == data@ + bytes_of_servers(
                model.skip(i as int),
            ),
        decreases model.len() - i,
    {
        let ghost pre = data@;
        proof {
            assert(model.skip(i as int)[0] == model[i as int]);
            assert(model.skip(i as int).drop_first() =~= model.skip(i as int + 1));
            assert(model[i as int] == servers@[i as int]@);
        }
        append_bytes(&mut data, servers[i].as_str());
        proof {
            assert(pre + (encode_utf8(model[i as int]) + bytes_of_servers(
                model.skip(i as int + 1),
            )) =~= data@ + bytes_of_servers(model.skip(i as int + 1)));
        }
        i += 1;
    }
    proof {
        assert(model.skip(model.len() as int) =~= Seq::<Seq<char>>::empty());
        assert(data@ + Seq::<u8>::empty() =~= data@);
    }
    let h = hash_bytes(&data);
    u64_to_dec(h)
}

/// The message remembered and surfaced when no server can resolve an
/// identifier.
pub fn error_unsupported_aturi() -> (r: &'static str)
    ensures
        r@ == "error-web-unsupported-aturi Unsupported AT-URI"@,
{
    "error-web-unsupported-aturi Unsupported AT-URI"
}

/// The resolution engine: both cache tiers.
pub struct Resolver {
    pub discovery: DiscoveryCache,
    pub resolutions: ResolutionCache,
}

/// One resolution in progress: its cache key and the next candidate
/// server to try.
pub struct Resolution {
    pub key: String,
    pub next: usize,
}

/// What the orchestrator asks of its caller next.
pub enum Step {
    /// The destination URL; memoized for thirty minutes.
    Resolved(String),
    /// Every candidate exhausted; memoized for ten minutes.
    Unresolved(String),
    /// The named hostname's discovery document is wanted: fetch it and
    /// hand the outcome to `supply_discovery`.
    NeedFetch(String),
}

/// The mathematical outcome of walking the remaining candidates against a
/// discovery-cache state.
pub enum SpecStep {
    Resolved(Seq<char>),
    Unresolved,
    NeedFetch(Seq<char>),
}

/// Walks `remaining` in order: the first hostname without a live
/// discovery entry is fetched; a live failure is skipped; a live document
/// either matches — first match wins — or is skipped; an exhausted list is
/// unresolved.
pub open spec fn spec_resolve(
    disc: DiscoveryCache,
    remaining: Seq<Seq<char>>,
    uri: AtUriV,
    now: u64,
) -> SpecStep
    decreases remaining.len(),
{
    if remaining.len() == 0 {
        SpecStep::Unresolved
    } else {
        match disc.spec_get(remaining[0], now) {
            Option::None => SpecStep::NeedFetch(remaining[0]),
            Option::Some(ResolveWebHostMetaResultV::NotFound(_)) => spec_resolve(
                disc,
                remaining.drop_first(),
                uri,
                now,
            ),
            Option::Some(ResolveWebHostMetaResultV::Found(d)) => match spec_match_links(
                d.links,
                rel_link_spec(),
                ns_collection_spec(),
                remaining[0],
                uri,
            ) {
                Option::Some(u) => SpecStep::Resolved(u),
                Option::None => spec_resolve(disc, remaining.drop_first(), uri, now),
            },
        }
    }
}

impl Resolver {
    pub open spec fn wf(&self) -> bool {
        self.discovery.wf() && self.resolutions.wf()
    }

    pub fn new(discovery: DiscoveryCache, resolutions: ResolutionCache) -> (r: Self)
        ensures
            r.discovery == discovery,
            r.resolutions == resolutions,
    {
        Resolver { discovery, resolutions }
    }

    /// Starts a resolution: computes the cache key and consults the
    /// resolution cache; a hit is the remembered outcome, and no server is
    /// contacted for it.
    pub fn begin(&self, aturi_input: &str, servers: &Vec<String>, now: u64) -> (r: (
        Resolution,
        Option<ResolveAtUriResult>,
    ))
        ensures
            r.0.key@ == spec_cache_key(aturi_input@, servers@.map_values(|s: String| s@)),
            r.0.next == 0,
            match r.1 {
                Option::Some(v) => self.resolutions.spec_get(r.0.key@, now) == Option::Some(v@),
                Option::None => self.resolutions.spec_get(r.0.key@, now) is None,
            },
    {
        let key = cache_key(aturi_input, servers);
        let cached = self.resolutions.get(key.as_str(), now);
        (Resolution { key, next: 0 }, cached)
    }

    /// Stores the outcome of a discovery fetch of `hostname` made at
    /// `now`.
    pub fn supply_discovery(&mut self, hostname: &str, outcome: ResolveWebHostMetaResult, now: u64)
        requires
            old(self).wf(),
        ensures
            final(self).wf(),
            final(self).resolutions == old(self).resolutions,
            final(self).discovery.cap() == old(self).discovery.cap(),
            final(self).discovery.spec_entry(hostname@) == Option::Some((outcome@, now)),
            final(self).discovery.spec_get(hostname@, now) == Option::Some(outcome@),
            forall|k: Seq<char>|
                k != hostname@ && (#[trigger] final(self).discovery.spec_entry(k)) is Some ==> final(self).discovery.spec_entry(k) == old(self).discovery.spec_entry(k),
            old(self).discovery.entries_view().len() < old(self).discovery.cap() ==> forall|
                k: Seq<char>,
            |
                k != hostname@ ==> #[trigger] final(self).discovery.spec_entry(k) == old(self).discovery.spec_entry(k),
    {
        self.discovery.insert(hostname, outcome, now);
    }

    /// Advances a resolution from its next candidate: either the walk
    /// needs a fetch — nothing changes and the hostname is named — or it
    /// ends, and the outcome is memoized under the resolution's key.
    pub fn step(&mut self, aturi: &AtUri, servers: &Vec<String>, st: &mut Resolution, now: u64)
        -> (r: Step)
        requires
            old(self).wf(),
            old(st).next <= servers@.len(),
        ensures
            final(self).wf(),
            final(self).discovery == old(self).discovery,
            final(st).key@ == old(st).key@,
            old(st).next <= final(st).next <= servers@.len(),
            match r {
                Step::NeedFetch(h) => {
                    &&& final(self).resolutions == old(self).resolutions
                    &&& final(st).next < servers@.len()
                    &&& h@ == servers@.map_values(|s: String| s@)[final(st).next as int]
                    &&& spec_resolve(
                        old(self).discovery,
                        servers@.map_values(|s: String| s@).skip(old(st).next as int),
                        aturi@,
                        now,
                    ) == SpecStep::NeedFetch(h@)
                },
                Step::Resolved(u) => {
                    &&& spec_resolve(
                        old(self).discovery,
                        servers@.map_values(|s: String| s@).skip(old(st).next as int),
                        aturi@,
                        now,
                    ) == SpecStep::Resolved(u@)
                    &&& final(self).resolutions.spec_entry(old(st).key@) == Option::Some(
                        (ResolveAtUriResultV::Found(u@), now),
                    )
                    &&& final(self).resolutions.spec_get(old(st).key@, now) == Option::Some(
                        ResolveAtUriResultV::Found(u@),
                    )
                    &&& forall|k: Seq<char>|
                        k != old(st).key@ && (#[trigger] final(self).resolutions.spec_entry(k)) is Some
                            ==> final(self).resolutions.spec_entry(k) == old(self).resolutions.spec_entry(k)
                },
                Step::Unresolved(m) => {
                    &&& m@ == "error-web-unsupported-aturi Unsupported AT-URI"@
                    &&& spec_resolve(
                        old(self).discovery,
                        servers@.map_values(|s: String| s@).skip(old(st).next as int),
                        aturi@,
                        now,
                    ) == SpecStep::Unresolved
                    &&& final(self).resolutions.spec_entry(old(st).key@) == Option::Some(
                        (ResolveAtUriResultV::NotFound(m@), now),
                    )
                    &&& final(self).resolutions.spec_get(old(st).key@, now) == Option::Some(
                        ResolveAtUriResultV::NotFound(m@),
                    )
                    &&& forall|k: Seq<char>|
                        k != old(st).key@ && (#[trigger] final(self).resolutions.spec_entry(k)) is Some
                            ==> final(self).resolutions.spec_entry(k) == old(self).resolutions.spec_entry(k)
                },
            },
    {
        let ghost sv = servers@.map_values(|s: String| s@);
        while st.next < servers.len()
            invariant
                self.wf(),
                self.discovery == old(self).discovery,
                self.resolutions == old(self).resolutions,
                st.key@ == old(st).key@,
                old(st).next <= st.next <= servers@.len(),
                sv == servers@.map_values(|s: String| s@),
                spec_resolve(self.discovery, sv.skip(old(st).next as int), aturi@, now)
                    == spec_resolve(self.discovery, sv.skip(st.next as int), aturi@, now),
            decreases servers@.len() - st.next,
        {
            let i = st.next;
            proof {
                assert(sv.skip(i as int)[0] == sv[i as int]);
                assert(sv.skip(i as int).drop_first() =~= sv.skip(i as int + 1));
                assert(sv[i as int] == servers@[i as int]@);
            }
            let server = &servers[i];
            match self.discovery.get(server.as_str(), now) {
                Option::None => {
                    return Step::NeedFetch(server.clone());
                },
                Option::Some(ResolveWebHostMetaResult::NotFound(_)) => {
                    st.next = i + 1;
                },
                Option::Some(ResolveWebHostMetaResult::Found(doc)) => {
                    match doc.match_uri(server.as_str(), aturi) {
                        Option::Some(u) => {
                            self.resolutions.insert(
                                st.key.as_str(),
                                ResolveAtUriResult::Found(u.clone()),
                                now,
                            );
                            return Step::Resolved(u);
                        },
                        Option::None => {
                            st.next = i + 1;
                        },
                    }
                },
            }
        }
        proof {
            assert(sv.skip(servers@.len() as int) =~= Seq::<Seq<char>>::empty());
        }
        let msg = String::from_str(error_unsupported_aturi());
        self.resolutions.insert(st.key.as_str(), ResolveAtUriResult::NotFound(msg.clone()), now);
        Step::Unresolved(msg)
    }
}

/// A candidate that is present in the discovery cache and yields no match
/// for `uri`: a remembered failure, or a document none of whose links
/// apply.
pub open spec fn spec_no_match(
    disc: DiscoveryCache,
    server: Seq<char>,
    uri: AtUriV,
    now: u64,
) -> bool {
    match disc.spec_get(server, now) {
        Option::Some(ResolveWebHostMetaResultV::NotFound(_)) => true,
        Option::Some(ResolveWebHostMetaResultV::Found(d)) => spec_match_links(
            d.links,
            rel_link_spec(),
            ns_collection_spec(),
            server,
            uri,
        ) is None,
        Option::None => false,
    }
}

/// Law: iteration is first-match, not best-match. Wherever the one
/// matching server stands in the list — every other candidate present and
/// non-matching — the walk resolves to its expansion.
pub proof fn lemma_single_match_resolves(
    disc: DiscoveryCache,
    servers: Seq<Seq<char>>,
    uri: AtUriV,
    now: u64,
    i: int,
    d: WebHostMetaV,
    u: Seq<char>,
)
    requires
        0 <= i < servers.len(),
        forall|j: int|
            0 <= j < servers.len() && j != i ==> spec_no_match(
                disc,
                #[trigger] servers[j],
                uri,
                now,
            ),
        disc.spec_get(servers[i], now) == Option::Some(ResolveWebHostMetaResultV::Found(d)),
        spec_match_links(d.links, rel_link_spec(), ns_collection_spec(), servers[i], uri)
            == Option::Some(u),
    ensures
        spec_resolve(disc, servers, uri, now) == SpecStep::Resolved(u),
    decreases servers.len(),
{
    if i == 0 {
    } else {
        assert(spec_no_match(disc, servers[0], uri, now));
        assert forall|j: int|
            0 <= j < servers.drop_first().len() && j != i - 1 implies spec_no_match(
            disc,
            #[trigger] servers.drop_first()[j],
            uri,
            now,
        ) by {
            assert(servers.drop_first()[j] == servers[j + 1]);
        }
        assert(servers.drop_first()[i - 1] == servers[i]);
        lemma_single_match_resolves(disc, servers.drop_first(), uri, now, i - 1, d, u);
    }
}

// ---------------------------------------------------------------------------
// The candidate-server list
// ---------------------------------------------------------------------------

/// Folds one trimmed token into the list: empty tokens and tokens already
/// present are dropped.
pub open spec fn collect_servers(parts: Seq<Seq<char>>, acc: Seq<Seq<char>>) -> Seq<Seq<char>>
    decreases parts.len(),
{
    if parts.len() == 0 {
        acc
    } else {
        let t = spec_trim(parts[0]);
        let acc2 = if t.len() == 0 || acc.contains(t) {
            acc
        } else {
            acc.push(t)
        };
        collect_servers(parts.drop_first(), acc2)
    }
}

/// Appends a default candidate unless it is already listed.
pub open spec fn add_default(acc: Seq<Seq<char>>, s: Seq<char>) -> Seq<Seq<char>> {
    if acc.contains(s) {
        acc
    } else {
        acc.push(s)
    }
}

/// The candidate list for a request: the comma-separated, trimmed,
/// deduplicated tokens of `value`, in first-occurrence order, followed by
/// the well-known defaults not already named.
pub open spec fn spec_parse_servers(value: Seq<char>) -> Seq<Seq<char>> {
    let base = collect_servers(spec_split(value, ','), Seq::empty());
    add_default(
        add_default(
            add_default(add_default(base, "smokesignal.events"@), "frontpage.fyi"@),
            "whtwnd.com"@,
        ),
        "bsky.app"@,
    )
}

/// Whether some element of `v` reads `s`.
fn vec_contains_str(v: &Vec<String>, s: &str) -> (r: bool)
    ensures
        r == v@.map_values(|p: String| p@).contains(s@),
{
    let ghost model = v@.map_values(|p: String| p@);
    let mut i: usize = 0;
    while i < v.len()
        invariant
            model == v@.map_values(|p: String| p@),
            i <= model.len(),
            forall|j: int| 0 <= j < i ==> model[j] != s@,
        decreases model.len() - i,
    {
        proof {
            assert(model[i as int] == v@[i as int]@);
        }
        if str_eq(v[i].as_str(), s) {
            assert(model.contains(s@)) by {
                assert(model[i as int] == s@);
            }
            return true;
        }
        i += 1;
    }
    proof {
        if model.contains(s@) {
            let j = choose|j: int| 0 <= j < model.len() && model[j] == s@;
            assert(model[j] != s@);
        }
    }
    false
}

/// Appends `s` unless it is already listed.
fn push_if_absent(v: &mut Vec<String>, s: &str)
    ensures
        final(v)@.map_values(|p: String| p@) == add_default(
            old(v)@.map_values(|p: String| p@),
            s@,
        ),
{
    if !vec_contains_str(v, s) {
        v.push(s.to_owned());
        proof {
            assert(v@.map_values(|p: String| p@) =~= old(v)@.map_values(|p: String| p@).push(
                s@,
            ));
        }
    }
}

/// Builds the candidate list for a request: the comma-separated tokens of
/// `value`, trimmed, dropped when empty, deduplicated keeping first
/// occurrences, with the well-known defaults appended when absent.
pub fn parse_servers(value: &str) -> (r: Vec<String>)
    ensures
        r@.map_values(|p: String| p@) == spec_parse_servers(value@),
{
    let parts = split_char(value, ',');
    let ghost model = spec_split(value@, ',');
    let mut out: Vec<String> = Vec::new();
    let mut i: usize = 0;
    proof {
        assert(model.skip(0) =~= model);
        assert(out@.map_values(|p: String| p@) =~= Seq::<Seq<char>>::empty());
    }
    while i < parts.len()
        invariant
            parts@.map_values(|p: String| p@) == model,
            i <= model.len(),
            collect_servers(model, Seq::empty()) == collect_servers(
                model.skip(i as int),
                out@.map_values(|p: String| p@),
            ),
        decreases model.len() - i,
    {
        let ghost acc = out@.map_values(|p: String| p@);
        proof {
            assert(model.skip(i as int)[0] == model[i as int]);
            assert(model.skip(i as int).drop_first() =~= model.skip(i as int + 1));
            assert(parts@[i as int]@ == model[i as int]);
        }
        let t = trim(parts[i].as_str());
        if t.unicode_len() > 0 && !vec_contains_str(&out, t) {
            out.push(t.to_owned());
            proof {
                assert(out@.map_values(|p: String| p@) =~= acc.push(spec_trim(
                    model[i as int],
                )));
            }
        }
        i += 1;
    }
    proof {
        assert(model.skip(model.len() as int) =~= Seq::<Seq<char>>::empty());
    }
    push_if_absent(&mut out, "smokesignal.events");
    push_if_absent(&mut out, "frontpage.fyi");
    push_if_absent(&mut out, "whtwnd.com");
    push_if_absent(&mut out, "bsky.app");
    out
}

} // verus!
