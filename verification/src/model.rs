//! The identifier model: parsing and validation of `at://` record
//! identifiers into an identity, an optional collection and an optional
//! record key.

use vstd::prelude::*;

use crate::text::is_space;
use crate::text::lemma_split_no_sep;
use crate::text::spec_split;
use crate::text::spec_starts_with;
use crate::text::spec_ends_with;
use crate::text::spec_trim;
use crate::text::split_char;
use crate::text::str_contains_char;
use crate::text::str_ends_with;
use crate::text::str_starts_with;
use crate::text::trim;

verus! {

/// A validated AT-URI: `at://identity[/collection[/rkey]]`.
pub struct AtUri {
    pub identity: String,
    pub collection: Option<String>,
    pub rkey: Option<String>,
}

/// The mathematical value of an [`AtUri`].
pub struct AtUriV {
    pub identity: Seq<char>,
    pub collection: Option<Seq<char>>,
    pub rkey: Option<Seq<char>>,
}

impl View for AtUri {
    type V = AtUriV;

    open spec fn view(&self) -> AtUriV {
        AtUriV {
            identity: self.identity@,
            collection: match self.collection {
                Option::Some(c) => Option::Some(c@),
                Option::None => Option::None,
            },
            rkey: match self.rkey {
                Option::Some(k) => Option::Some(k@),
                Option::None => Option::None,
            },
        }
    }
}

/// The characters a hostname or namespaced identifier may hold:
/// ASCII letters, digits, `-` and `.`.
pub open spec fn is_host_char(c: char) -> bool {
    (97 <= c as u32 && c as u32 <= 122) || (65 <= c as u32 && c as u32 <= 90) || (48 <= c as u32
        && c as u32 <= 57) || c == '-' || c == '.'
}

pub fn is_host_char_exec(c: char) -> (r: bool)
    ensures
        r == is_host_char(c),
{
    let u = c as u32;
    (97 <= u && u <= 122) || (65 <= u && u <= 90) || (48 <= u && u <= 57) || c == '-' || c == '.'
}

/// A dot-delimited label: 1 to 63 characters, neither starting nor ending
/// with `-`.
pub open spec fn label_ok(l: Seq<char>) -> bool {
    1 <= l.len() <= 63 && l[0] != '-' && l[l.len() - 1] != '-'
}

/// Hostname validity: only hostname characters, 1 to 253 characters, no
/// reserved suffix, and every dot-delimited label well formed.
pub open spec fn spec_valid_hostname(h: Seq<char>) -> bool {
    &&& 1 <= h.len() <= 253
    &&& !spec_ends_with(h, ".localhost"@)
    &&& !spec_ends_with(h, ".internal"@)
    &&& !spec_ends_with(h, ".arpa"@)
    &&& !spec_ends_with(h, ".local"@)
    &&& forall|i: int| 0 <= i < h.len() ==> is_host_char(#[trigger] h[i])
    &&& forall|i: int|
        0 <= i < spec_split(h, '.').len() ==> label_ok(#[trigger] spec_split(h, '.')[i])
}

/// Namespaced-identifier validity: only hostname characters, 1 to 253
/// characters, at least 3 labels, every label well formed.
pub open spec fn spec_valid_nsid(n: Seq<char>) -> bool {
    &&& 1 <= n.len() <= 253
    &&& forall|i: int| 0 <= i < n.len() ==> is_host_char(#[trigger] n[i])
    &&& spec_split(n, '.').len() >= 3
    &&& forall|i: int|
        0 <= i < spec_split(n, '.').len() ==> label_ok(#[trigger] spec_split(n, '.')[i])
}

/// Checks that every label of `parts` is well formed.
fn labels_ok(parts: &Vec<String>, Ghost(model): Ghost<Seq<Seq<char>>>) -> (r: bool)
    requires
        parts@.map_values(|p: String| p@) == model,
    ensures
        r == forall|i: int| 0 <= i < model.len() ==> label_ok(#[trigger] model[i]),
{
    let mut k: usize = 0;
    while k < parts.len()
        invariant
            parts@.map_values(|p: String| p@) == model,
            k <= model.len(),
            forall|i: int| 0 <= i < k ==> label_ok(#[trigger] model[i]),
        decreases model.len() - k,
    {
        let l = &parts[k];
        proof {
            assert(l@ == model[k as int]);
        }
        let m = l.as_str().unicode_len();
        if m == 0 || m > 63 {
            assert(!label_ok(model[k as int]));
            return false;
        }
        if l.as_str().get_char(0) == '-' || l.as_str().get_char(m - 1) == '-' {
            assert(!label_ok(model[k as int]));
            return false;
        }
        assert(label_ok(model[k as int]));
        k += 1;
    }
    true
}

/// Checks that every character of `s` is a hostname character.
fn all_host_chars(s: &str) -> (r: bool)
    ensures
        r == forall|i: int| 0 <= i < s@.len() ==> is_host_char(#[trigger] s@[i]),
{
    let n = s.unicode_len();
    let mut i: usize = 0;
    while i < n
        invariant
            n == s@.len(),
            i <= n,
            forall|j: int| 0 <= j < i ==> is_host_char(#[trigger] s@[j]),
        decreases n - i,
    {
        if !is_host_char_exec(s.get_char(i)) {
            assert(!is_host_char(s@[i as int]));
            return false;
        }
        i += 1;
    }
    true
}

/// Decides hostname validity.
pub fn is_valid_hostname(hostname: &str) -> (r: bool)
    ensures
        r == spec_valid_hostname(hostname@),
{
    let n = hostname.unicode_len();
    if n == 0 || n > 253 {
        return false;
    }
    if str_ends_with(hostname, ".localhost") || str_ends_with(hostname, ".internal")
        || str_ends_with(hostname, ".arpa") || str_ends_with(hostname, ".local") {
        return false;
    }
    if !all_host_chars(hostname) {
        return false;
    }
    let labels = split_char(hostname, '.');
    labels_ok(&labels, Ghost(spec_split(hostname@, '.')))
}

/// Decides namespaced-identifier validity.
pub fn is_valid_nsid(nsid: &str) -> (r: bool)
    ensures
        r == spec_valid_nsid(nsid@),
{
    let n = nsid.unicode_len();
    if n == 0 || n > 253 {
        return false;
    }
    if !all_host_chars(nsid) {
        return false;
    }
    let labels = split_char(nsid, '.');
    if labels.len() < 3 {
        return false;
    }
    labels_ok(&labels, Ghost(spec_split(nsid@, '.')))
}

/// Identity validity: a `did:web:` identifier whose first `:`-delimited
/// component is a dotted hostname, a `did:plc:` identifier whose remainder
/// has exactly 24 characters, or a handle that is a dotted hostname.
pub open spec fn spec_valid_identity(id: Seq<char>) -> bool {
    if spec_starts_with(id, "did:web:"@) {
        let parts = spec_split(id.skip("did:web:"@.len() as int), ':');
        spec_valid_hostname(parts[0]) && parts[0].contains('.')
    } else if spec_starts_with(id, "did:plc:"@) {
        id.skip("did:plc:"@.len() as int).len() == 24
    } else {
        spec_valid_hostname(id) && id.contains('.')
    }
}

/// Decides identity validity.
pub fn is_valid_identity(identity: &str) -> (r: bool)
    ensures
        r == spec_valid_identity(identity@),
{
    let n = identity.unicode_len();
    if str_starts_with(identity, "did:web:") {
        proof {
            reveal_strlit("did:web:");
        }
        let rest = identity.substring_char(8, n);
        let parts = split_char(rest, ':');
        proof {
            assert(rest@ == identity@.skip("did:web:"@.len() as int));
            assert(parts@.map_values(|p: String| p@)[0] == parts@[0]@);
        }
        let first = &parts[0];
        is_valid_hostname(first.as_str()) && str_contains_char(first.as_str(), '.')
    } else if str_starts_with(identity, "did:plc:") {
        proof {
            reveal_strlit("did:plc:");
            assert(identity@.skip(8).len() == identity@.len() - 8);
        }
        n == 32
    } else {
        is_valid_hostname(identity) && str_contains_char(identity, '.')
    }
}

/// The mathematical parse of an AT-URI: trim, require the `at://` prefix,
/// split the remainder on `/` into at most three segments, and validate the
/// identity and, when present, the collection.
pub open spec fn spec_validate_aturi(input: Seq<char>) -> Option<AtUriV> {
    let t = spec_trim(input);
    if !spec_starts_with(t, "at://"@) {
        Option::None
    } else {
        let parts = spec_split(t.skip("at://"@.len() as int), '/');
        if !spec_valid_identity(parts[0]) {
            Option::None
        } else if parts.len() > 1 && !spec_valid_nsid(parts[1]) {
            Option::None
        } else if parts.len() > 3 {
            Option::None
        } else {
            Option::Some(
                AtUriV {
                    identity: parts[0],
                    collection: if parts.len() >= 2 {
                        Option::Some(parts[1])
                    } else {
                        Option::None
                    },
                    rkey: if parts.len() >= 3 {
                        Option::Some(parts[2])
                    } else {
                        Option::None
                    },
                },
            )
        }
    }
}

/// Parses and validates an AT-URI; `None` on any malformed input.
pub fn validate_aturi(aturi: &str) -> (r: Option<AtUri>)
    ensures
        match r {
            Option::Some(u) => spec_validate_aturi(aturi@) == Option::Some(u@),
            Option::None => spec_validate_aturi(aturi@) is None,
        },
{
    let t = trim(aturi);
    if !str_starts_with(t, "at://") {
        return Option::None;
    }
    let n = t.unicode_len();
    proof {
        reveal_strlit("at://");
    }
    let stripped = t.substring_char(5, n);
    proof {
        assert(stripped@ == spec_trim(aturi@).skip("at://"@.len() as int));
    }
    let parts = split_char(stripped, '/');
    let ghost model = spec_split(spec_trim(aturi@).skip("at://"@.len() as int), '/');
    proof {
        assert(parts@.map_values(|p: String| p@) == model);
        assert(parts@.len() == model.len());
        assert(parts@[0]@ == model[0]);
    }
    let first = &parts[0];
    if !is_valid_identity(first.as_str()) {
        return Option::None;
    }
    if parts.len() > 1 {
        proof {
            assert(parts@[1]@ == model[1]);
        }
        let second = &parts[1];
        if !is_valid_nsid(second.as_str()) {
            return Option::None;
        }
    }
    if parts.len() > 3 {
        return Option::None;
    }
    proof {
        if parts@.len() >= 2 {
            assert(parts@[1]@ == model[1]);
        }
        if parts@.len() >= 3 {
            assert(parts@[2]@ == model[2]);
        }
    }
    let identity = parts[0].clone();
    let collection = if parts.len() >= 2 {
        Option::Some(parts[1].clone())
    } else {
        Option::None
    };
    let rkey = if parts.len() >= 3 {
        Option::Some(parts[2].clone())
    } else {
        Option::None
    };
    Option::Some(AtUri { identity, collection, rkey })
}

/// A hostname character is not whitespace, not `/` and not `:`.
pub proof fn lemma_host_char_excludes(c: char)
    requires
        is_host_char(c),
    ensures
        !is_space(c),
        c != '/',
        c != ':',
{
}

/// Law: a valid dotted handle `h` parses under the `at://` prefix to an
/// identifier with identity `h` and neither collection nor record key.
pub proof fn lemma_handle_parses(h: Seq<char>)
    requires
        spec_valid_hostname(h),
        h.contains('.'),
    ensures
        spec_validate_aturi("at://"@ + h) == Option::Some(
            AtUriV { identity: h, collection: Option::None, rkey: Option::None },
        ),
{
    reveal_strlit("at://");
    reveal_strlit("did:web:");
    reveal_strlit("did:plc:");
    let full = "at://"@ + h;
    assert forall|i: int| 0 <= i < full.len() implies !is_space(#[trigger] full[i]) by {
        if i < 5 {
            assert(full[i] == "at://"@[i]);
        } else {
            assert(full[i] == h[i - 5]);
            assert(is_host_char(h[i - 5]));
            lemma_host_char_excludes(h[i - 5]);
        }
    }
    crate::text::lemma_trim_id(full);
    assert(full.subrange(0, 5) =~= "at://"@);
    assert(spec_starts_with(full, "at://"@));
    let rest = full.skip(5);
    assert(rest =~= h);
    assert(!h.contains('/')) by {
        if h.contains('/') {
            let j = choose|j: int| 0 <= j < h.len() && h[j] == '/';
            lemma_host_char_excludes(h[j]);
        }
    }
    lemma_split_no_sep(h, '/');
    let parts = spec_split(h, '/');
    assert(parts[0] == h);
    assert(!spec_starts_with(h, "did:web:"@)) by {
        if spec_starts_with(h, "did:web:"@) {
            assert(h.subrange(0, 8)[3] == ':');
            assert(h[3] == ':');
            lemma_host_char_excludes(h[3]);
        }
    }
    assert(!spec_starts_with(h, "did:plc:"@)) by {
        if spec_starts_with(h, "did:plc:"@) {
            assert(h.subrange(0, 8)[3] == ':');
            assert(h[3] == ':');
            lemma_host_char_excludes(h[3]);
        }
    }
    assert(spec_valid_identity(h));
    assert(parts.len() == 1);
}

/// Law: `at://did:plc:` followed by `s` — with `s` free of `/`, which
/// would change the segmentation, and not ending in whitespace, which
/// trimming would strip — parses exactly when `s` has 24 characters.
pub proof fn lemma_plc_parses(s: Seq<char>)
    requires
        !s.contains('/'),
        s.len() > 0 ==> !is_space(s.last()),
    ensures
        (spec_validate_aturi("at://did:plc:"@ + s) is Some) <==> s.len() == 24,
{
    reveal_strlit("at://did:plc:");
    reveal_strlit("at://");
    reveal_strlit("did:web:");
    reveal_strlit("did:plc:");
    let lit = "at://did:plc:"@;
    let full = lit + s;
    assert(spec_trim(full) == full) by {
        assert(full[0] == 'a');
        assert(crate::text::trim_start_rec(full) == full);
        if s.len() > 0 {
            assert(full.last() == s.last());
        } else {
            assert(full.last() == ':');
        }
        assert(crate::text::trim_end_rec(full) == full);
    }
    assert(full.subrange(0, 5) =~= "at://"@);
    assert(spec_starts_with(full, "at://"@));
    let rest = full.skip(5);
    assert(rest =~= "did:plc:"@ + s);
    assert(!rest.contains('/')) by {
        if rest.contains('/') {
            let j = choose|j: int| 0 <= j < rest.len() && rest[j] == '/';
            if j < 8 {
                assert(rest[j] == "did:plc:"@[j]);
            } else {
                assert(rest[j] == s[j - 8]);
                assert(s.contains('/')) by {
                    assert(s[j - 8] == '/');
                }
            }
        }
    }
    lemma_split_no_sep(rest, '/');
    let parts = spec_split(rest, '/');
    assert(parts[0] == rest);
    assert(parts.len() == 1);
    assert(!spec_starts_with(rest, "did:web:"@)) by {
        if spec_starts_with(rest, "did:web:"@) {
            assert(rest.subrange(0, 8)[4] == 'w');
            assert(rest[4] == 'p');
        }
    }
    assert(rest.subrange(0, 8) =~= "did:plc:"@);
    assert(spec_starts_with(rest, "did:plc:"@));
    assert(rest.skip(8) =~= s);
    assert(spec_valid_identity(rest) <==> s.len() == 24);
}

/// Law: a namespaced identifier is rejected when it has fewer than 3
/// labels, a label longer than 63 characters, or a label that starts or
/// ends with `-`.
pub proof fn lemma_nsid_rejections(n: Seq<char>)
    ensures
        spec_split(n, '.').len() < 3 ==> !spec_valid_nsid(n),
        forall|i: int|
            0 <= i < spec_split(n, '.').len() && (#[trigger] spec_split(n, '.')[i]).len() > 63
                ==> !spec_valid_nsid(n),
        forall|i: int|
            0 <= i < spec_split(n, '.').len() && (#[trigger] spec_split(n, '.')[i]).len() >= 1 && (
            spec_split(n, '.')[i][0] == '-' || spec_split(n, '.')[i].last() == '-') ==> !spec_valid_nsid(
                n,
            ),
{
    assert forall|i: int|
        0 <= i < spec_split(n, '.').len() && (#[trigger] spec_split(n, '.')[i]).len() > 63 implies
        !spec_valid_nsid(n) by {
        assert(!label_ok(spec_split(n, '.')[i]));
    }
    assert forall|i: int|
        0 <= i < spec_split(n, '.').len() && (#[trigger] spec_split(n, '.')[i]).len() >= 1 && (
        spec_split(n, '.')[i][0] == '-' || spec_split(n, '.')[i].last() == '-') implies
        !spec_valid_nsid(n) by {
        assert(!label_ok(spec_split(n, '.')[i]));
    }
}

} // verus!
