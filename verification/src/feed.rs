//! Feed normalization: the library's record types for a channel and its
//! items, and the vendor-namespace key escaping that keeps `itunes:` fields
//! distinct through a generic XML-to-map conversion.
//!
//! A generic XML-to-map conversion merges all namespaces into one flat key
//! space, which collides vendor fields (such as `itunes:author`) with
//! default-namespace fields. The workaround is a bijective pre/post transform
//! pair: before conversion every occurrence of the vendor prefix in the feed
//! text is rewritten to a reserved colon-free placeholder, and after
//! conversion every placeholder-prefixed key is rewritten back to its
//! `itunes:` form, uniformly at every nesting level.

use vstd::prelude::*;

use crate::text::{chars_match_at, chars_to_string, matches_at, push_char, seq_starts_with, str_to_chars};
use crate::ParseError;

verus! {

broadcast use vstd::std_specs::vec::axiom_vec_index_decreases;

/// The vendor namespace prefix that the conversion would otherwise collide
/// with default-namespace keys.
pub open spec fn vendor_prefix() -> Seq<char> {
    "itunes:"@
}

/// The reserved colon-free placeholder that stands in for the vendor prefix
/// while the generic conversion runs.
pub open spec fn placeholder_prefix() -> Seq<char> {
    "itunes__placeholder__"@
}

/// A key with its vendor prefix escaped: `itunes:name` becomes the
/// placeholder-prefixed form; every other key is left unchanged.
pub open spec fn escape_key_spec(k: Seq<char>) -> Seq<char> {
    if seq_starts_with(k, vendor_prefix()) {
        placeholder_prefix().add(k.skip(vendor_prefix().len() as int))
    } else {
        k
    }
}

/// A key with its placeholder prefix restored to the vendor prefix; every
/// other key is left unchanged.
pub open spec fn restore_key_spec(k: Seq<char>) -> Seq<char> {
    if seq_starts_with(k, placeholder_prefix()) {
        vendor_prefix().add(k.skip(placeholder_prefix().len() as int))
    } else {
        k
    }
}

/// Restoring an escaped key gives the key back, provided the key does not
/// itself begin with the reserved placeholder.
pub proof fn lemma_key_round_trip(k: Seq<char>)
    requires
        !seq_starts_with(k, placeholder_prefix()),
    ensures
        restore_key_spec(escape_key_spec(k)) == k,
{
    if seq_starts_with(k, vendor_prefix()) {
        let rest = k.skip(vendor_prefix().len() as int);
        let esc = placeholder_prefix().add(rest);
        assert(esc.take(placeholder_prefix().len() as int) =~= placeholder_prefix());
        assert(seq_starts_with(esc, placeholder_prefix()));
        assert(esc.skip(placeholder_prefix().len() as int) =~= rest);
        assert(vendor_prefix().add(rest) =~= k);
    }
}

/// Escaping never changes a key that does not carry the vendor prefix.
pub proof fn lemma_escape_preserves_other_keys(k: Seq<char>)
    requires
        !seq_starts_with(k, vendor_prefix()),
    ensures
        escape_key_spec(k) == k,
{
}

/// Rewrites a placeholder-prefixed key back to its `itunes:` form.
pub fn restore_key(s: &str) -> (r: String)
    ensures
        r@ == restore_key_spec(s@),
{
    let cs = str_to_chars(s);
    if crate::text::chars_start_with_str(cs.as_slice(), "itunes__placeholder__") {
        let mut out = str_to_chars("itunes:");
        let plen: usize = "itunes__placeholder__".unicode_len();
        let mut i: usize = plen;
        proof {
            assert(out@ =~= vendor_prefix().add(s@.skip(placeholder_prefix().len() as int)).take(
                out@.len() as int,
            ));
        }
        while i < cs.len()
            invariant
                plen == placeholder_prefix().len(),
                plen <= i <= cs@.len(),
                cs@ == s@,
                seq_starts_with(s@, placeholder_prefix()),
                out@ =~= vendor_prefix().add(s@.skip(plen as int)).take(
                    out@.len() as int,
                ),
                out@.len() == vendor_prefix().len() + i - plen,
            decreases cs@.len() - i,
        {
            let c = cs[i];
            out.push(c);
            i = i + 1;
            proof {
                assert(out@ =~= vendor_prefix().add(s@.skip(plen as int)).take(out@.len() as int));
            }
        }
        proof {
            let full = vendor_prefix().add(s@.skip(plen as int));
            assert(out@ =~= full);
        }
        chars_to_string(out.as_slice())
    } else {
        chars_to_string(cs.as_slice())
    }
}

/// One field value in a raw channel or item record: a text leaf, an ordered
/// list, or a nested record of key/value entries.
#[verifier::ext_equal]
pub enum FieldValue {
    Text(String),
    List(Vec<FieldValue>),
    Nested(Vec<(String, FieldValue)>),
}

/// The mathematical shape of a `FieldValue`.
#[verifier::ext_equal]
pub enum FieldModel {
    Text(Seq<char>),
    List(Seq<FieldModel>),
    Nested(Seq<(Seq<char>, FieldModel)>),
}

/// The deep model of a field value: every string replaced by its character
/// sequence.
pub open spec fn field_model(v: FieldValue) -> FieldModel
    decreases v,
{
    match v {
        FieldValue::Text(s) => FieldModel::Text(s@),
        FieldValue::List(l) => FieldModel::List(
            Seq::new(
                l@.len(),
                |i: int|
                    if 0 <= i < l@.len() {
                        field_model(l[i])
                    } else {
                        FieldModel::Text(Seq::empty())
                    },
            ),
        ),
        FieldValue::Nested(m) => FieldModel::Nested(
            Seq::new(
                m@.len(),
                |i: int|
                    if 0 <= i < m@.len() {
                        (m[i].0@, field_model(m[i].1))
                    } else {
                        (Seq::empty(), FieldModel::Text(Seq::empty()))
                    },
            ),
        ),
    }
}

/// Every key of the record, at every nesting level, escaped.
pub open spec fn escape_model(v: FieldModel) -> FieldModel
    decreases v,
{
    match v {
        FieldModel::Text(s) => FieldModel::Text(s),
        FieldModel::List(l) => FieldModel::List(
            Seq::new(
                l.len(),
                |i: int|
                    if 0 <= i < l.len() {
                        escape_model(l[i])
                    } else {
                        FieldModel::Text(Seq::empty())
                    },
            ),
        ),
        FieldModel::Nested(m) => FieldModel::Nested(
            Seq::new(
                m.len(),
                |i: int|
                    if 0 <= i < m.len() {
                        (escape_key_spec(m[i].0), escape_model(m[i].1))
                    } else {
                        (Seq::empty(), FieldModel::Text(Seq::empty()))
                    },
            ),
        ),
    }
}

/// Every key of the record, at every nesting level, restored.
pub open spec fn restore_model(v: FieldModel) -> FieldModel
    decreases v,
{
    match v {
        FieldModel::Text(s) => FieldModel::Text(s),
        FieldModel::List(l) => FieldModel::List(
            Seq::new(
                l.len(),
                |i: int|
                    if 0 <= i < l.len() {
                        restore_model(l[i])
                    } else {
                        FieldModel::Text(Seq::empty())
                    },
            ),
        ),
        FieldModel::Nested(m) => FieldModel::Nested(
            Seq::new(
                m.len(),
                |i: int|
                    if 0 <= i < m.len() {
                        (restore_key_spec(m[i].0), restore_model(m[i].1))
                    } else {
                        (Seq::empty(), FieldModel::Text(Seq::empty()))
                    },
            ),
        ),
    }
}

/// The value of the first model entry carrying `key`, when one exists.
pub open spec fn model_lookup(entries: Seq<(Seq<char>, FieldModel)>, key: Seq<char>) -> Option<
    FieldModel,
>
    decreases entries.len(),
{
    if entries.len() == 0 {
        None
    } else if entries[0].0 == key {
        Some(entries[0].1)
    } else {
        model_lookup(entries.skip(1), key)
    }
}

/// The child of a record model under `key`; `None` for any other shape.
pub open spec fn model_child(m: FieldModel, key: Seq<char>) -> Option<FieldModel> {
    match m {
        FieldModel::Nested(es) => model_lookup(es, key),
        _ => None,
    }
}

/// No key of the record, at any nesting level, begins with the reserved
/// placeholder.
pub open spec fn keys_clean(v: FieldModel) -> bool
    decreases v,
{
    match v {
        FieldModel::Text(s) => true,
        FieldModel::List(l) => forall|i: int|
            0 <= i < l.len() ==> keys_clean(#[trigger] l[i]),
        FieldModel::Nested(m) => forall|i: int|
            0 <= i < m.len() ==> !seq_starts_with(#[trigger] m[i].0, placeholder_prefix())
                && keys_clean(m[i].1),
    }
}

/// The restore pass never alters a record whose keys are free of the
/// reserved placeholder: every non-vendor key, and the value under it, maps
/// to itself.
pub proof fn lemma_restore_preserves_clean_keys(v: FieldModel)
    requires
        keys_clean(v),
    ensures
        restore_model(v) == v,
    decreases v,
{
    match v {
        FieldModel::Text(s) => {},
        FieldModel::List(l) => {
            let r = restore_model(v);
            assert forall|i: int| 0 <= i < l.len() implies #[trigger] r->List_0[i] == l[i] by {
                assert(keys_clean(l[i]));
                lemma_restore_preserves_clean_keys(l[i]);
            }
            assert(r->List_0 =~= l);
        },
        FieldModel::Nested(m) => {
            let r = restore_model(v);
            assert forall|i: int| 0 <= i < m.len() implies #[trigger] r->Nested_0[i] == m[i] by {
                assert(!seq_starts_with(m[i].0, placeholder_prefix()));
                assert(keys_clean(m[i].1));
                lemma_restore_preserves_clean_keys(m[i].1);
            }
            assert(r->Nested_0 =~= m);
        },
    }
}

/// Namespace round trip: for an arbitrarily nested record none of whose keys
/// begins with the reserved placeholder, escaping the vendor prefix in every
/// key and then restoring it reproduces every key — vendor-prefixed keys come
/// back unchanged, and keys without the vendor prefix are never altered.
pub proof fn lemma_namespace_round_trip(v: FieldModel)
    requires
        keys_clean(v),
    ensures
        restore_model(escape_model(v)) == v,
    decreases v,
{
    match v {
        FieldModel::Text(s) => {},
        FieldModel::List(l) => {
            let e = escape_model(v);
            let r = restore_model(e);
            assert forall|i: int| 0 <= i < l.len() implies #[trigger] r->List_0[i]
                == l[i] by {
                assert(keys_clean(l[i]));
                lemma_namespace_round_trip(l[i]);
            }
            assert(r->List_0 =~= l);
        },
        FieldModel::Nested(m) => {
            let e = escape_model(v);
            let r = restore_model(e);
            assert forall|i: int| 0 <= i < m.len() implies #[trigger] r->Nested_0[i]
                == m[i] by {
                assert(!seq_starts_with(m[i].0, placeholder_prefix()));
                assert(keys_clean(m[i].1));
                lemma_key_round_trip(m[i].0);
                lemma_namespace_round_trip(m[i].1);
            }
            assert(r->Nested_0 =~= m);
        },
    }
}

/// The feed text with every occurrence of `pat`, scanned left to right and
/// without overlap, replaced by `rep`; positions from `i` on.
pub open spec fn replace_from(s: Seq<char>, i: int, pat: Seq<char>, rep: Seq<char>) -> Seq<char>
    decreases s.len() - i,
{
    if i < 0 || i >= s.len() || pat.len() == 0 {
        Seq::empty()
    } else if i + pat.len() <= s.len() && s.subrange(i, i + pat.len() as int) == pat {
        rep.add(replace_from(s, i + pat.len() as int, pat, rep))
    } else {
        seq![s[i]].add(replace_from(s, i + 1, pat, rep))
    }
}

/// Rewrites every occurrence of the vendor prefix in the feed text to the
/// reserved placeholder, scanning left to right.
pub fn escape_vendor_text(xml: &str) -> (r: String)
    ensures
        r@ == replace_from(xml@, 0, vendor_prefix(), placeholder_prefix()),
{
    let cs = str_to_chars(xml);
    let pat_len: usize = "itunes:".unicode_len();
    let rep = str_to_chars("itunes__placeholder__");
    let mut out: Vec<char> = Vec::new();
    let mut i: usize = 0;
    proof {
        reveal_strlit("itunes:");
    }
    while i < cs.len()
        invariant
            cs@ == xml@,
            pat_len == vendor_prefix().len(),
            pat_len >= 1,
            rep@ == placeholder_prefix(),
            i <= cs@.len(),
            replace_from(cs@, 0, vendor_prefix(), placeholder_prefix()) == out@.add(
                replace_from(cs@, i as int, vendor_prefix(), placeholder_prefix()),
            ),
        decreases cs@.len() - i,
    {
        if chars_match_at(&cs, i, "itunes:") {
            let mut j: usize = 0;
            let ghost out0 = out@;
            while j < rep.len()
                invariant
                    j <= rep@.len(),
                    out@ == out0.add(rep@.take(j as int)),
                decreases rep@.len() - j,
            {
                out.push(rep[j]);
                j = j + 1;
                proof {
                    assert(out@ =~= out0.add(rep@.take(j as int)));
                }
            }
            proof {
                assert(rep@.take(rep@.len() as int) =~= rep@);
                assert(out@ =~= out0.add(rep@));
            }
            i = i + pat_len;
            proof {
                assert(out0.add(rep@.add(replace_from(cs@, i as int, vendor_prefix(),
                    placeholder_prefix()))) =~= out@.add(replace_from(cs@, i as int,
                    vendor_prefix(), placeholder_prefix())));
            }
        } else {
            let c = cs[i];
            out.push(c);
            i = i + 1;
            proof {
                assert(out@.drop_last().add(seq![c].add(replace_from(cs@, i as int,
                    vendor_prefix(), placeholder_prefix()))) =~= out@.add(replace_from(cs@,
                    i as int, vendor_prefix(), placeholder_prefix())));
            }
        }
    }
    proof {
        assert(out@.add(Seq::<char>::empty()) =~= out@);
    }
    chars_to_string(out.as_slice())
}

/// The position of the first entry carrying `key`; the record's length when
/// no entry does.
pub open spec fn lookup_index(entries: Seq<(String, FieldValue)>, key: Seq<char>) -> int
    decreases entries.len(),
{
    if entries.len() == 0 {
        0
    } else if entries[0].0@ == key {
        0
    } else {
        1 + lookup_index(entries.skip(1), key)
    }
}

/// The value of the first entry carrying `key`, when one exists.
pub open spec fn lookup_entry(entries: Seq<(String, FieldValue)>, key: Seq<char>) -> Option<
    FieldValue,
> {
    if lookup_index(entries, key) < entries.len() {
        Some(entries[lookup_index(entries, key)].1)
    } else {
        None
    }
}

/// The looked-up position is the first one carrying the key: it never passes
/// the record's end, it carries the key when it is in range, and no earlier
/// entry carries it.
pub proof fn lemma_lookup_index_props(entries: Seq<(String, FieldValue)>, key: Seq<char>)
    ensures
        0 <= lookup_index(entries, key) <= entries.len(),
        lookup_index(entries, key) < entries.len() ==> entries[lookup_index(entries, key)].0@
            == key,
        forall|j: int|
            0 <= j < lookup_index(entries, key) ==> (#[trigger] entries[j]).0@ != key,
    decreases entries.len(),
{
    if entries.len() > 0 && entries[0].0@ != key {
        lemma_lookup_index_props(entries.skip(1), key);
        let rest = lookup_index(entries.skip(1), key);
        if rest < entries.skip(1).len() {
            assert(entries.skip(1)[rest] == entries[rest + 1]);
        }
        assert forall|j: int| 0 <= j < lookup_index(entries, key) implies (
        #[trigger] entries[j]).0@ != key by {
            if j > 0 {
                assert(entries.skip(1)[j - 1] == entries[j]);
            }
        }
    }
}

/// Finds the first entry carrying `key`, returning its position.
fn find_entry(entries: &Vec<(String, FieldValue)>, key: &str) -> (r: Option<usize>)
    ensures
        match r {
            Some(i) => lookup_index(entries@, key@) == i as int && (i as int) < entries@.len(),
            None => lookup_index(entries@, key@) == entries@.len(),
        },
{
    let mut i: usize = 0;
    proof {
        assert(entries@.skip(0) =~= entries@);
        lemma_lookup_index_props(entries@, key@);
    }
    while i < entries.len()
        invariant
            i <= entries@.len(),
            lookup_index(entries@, key@) == i + lookup_index(entries@.skip(i as int), key@),
            lookup_index(entries@.skip(i as int), key@) >= 0,
        decreases entries@.len() - i,
    {
        proof {
            lemma_lookup_index_props(entries@.skip(i as int), key@);
        }
        if crate::text::str_eq_str(entries[i].0.as_str(), key) {
            proof {
                assert(entries@.skip(i as int)[0] == entries@[i as int]);
            }
            return Some(i);
        }
        i = i + 1;
        proof {
            assert(entries@.skip(i - 1)[0] == entries@[i - 1]);
            assert(entries@.skip(i - 1).skip(1) =~= entries@.skip(i as int));
            lemma_lookup_index_props(entries@.skip(i as int), key@);
        }
    }
    None
}

/// Looks up the value of the first entry carrying `key`.
pub fn entry_value<'a>(entries: &'a Vec<(String, FieldValue)>, key: &str) -> (r: Option<
    &'a FieldValue,
>)
    ensures
        match r {
            Some(v) => lookup_entry(entries@, key@) == Some(*v),
            None => lookup_entry(entries@, key@) is None,
        },
{
    proof {
        lemma_lookup_index_props(entries@, key@);
    }
    match find_entry(entries, key) {
        Some(i) => Some(&entries[i].1),
        None => None,
    }
}

/// The text carried by a field value: a text leaf directly, a nested record
/// through its `#text` node; a list carries none.
pub open spec fn field_text(v: FieldValue) -> Option<Seq<char>> {
    match v {
        FieldValue::Text(s) => Some(s@),
        FieldValue::Nested(m) => match lookup_entry(m@, "#text"@) {
            Some(FieldValue::Text(s)) => Some(s@),
            _ => None,
        },
        FieldValue::List(_) => None,
    }
}

/// Extracts the text of a field value, as `field_text` describes.
pub fn field_text_of(v: &FieldValue) -> (r: Option<&str>)
    ensures
        match r {
            Some(s) => field_text(*v) == Some(s@),
            None => field_text(*v) is None,
        },
{
    match v {
        FieldValue::Text(s) => Some(s.as_str()),
        FieldValue::Nested(m) => match entry_value(m, "#text") {
            Some(FieldValue::Text(s)) => Some(s.as_str()),
            _ => None,
        },
        FieldValue::List(_) => None,
    }
}

/// The text found under `key`, through `field_text`.
pub open spec fn text_lookup(entries: Seq<(String, FieldValue)>, key: Seq<char>) -> Option<
    Seq<char>,
> {
    match lookup_entry(entries, key) {
        Some(v) => field_text(v),
        None => None,
    }
}

/// Looks up `key` and extracts its text, as `text_lookup` describes.
pub fn text_lookup_of<'a>(entries: &'a Vec<(String, FieldValue)>, key: &str) -> (r: Option<
    &'a str,
>)
    ensures
        match r {
            Some(s) => text_lookup(entries@, key@) == Some(s@),
            None => text_lookup(entries@, key@) is None,
        },
{
    match entry_value(entries, key) {
        Some(v) => field_text_of(v),
        None => None,
    }
}

/// The texts of the list elements that carry one, in list order.
pub open spec fn texts_of_list(l: Seq<FieldValue>) -> Seq<Seq<char>>
    decreases l.len(),
{
    if l.len() == 0 {
        Seq::empty()
    } else {
        match field_text(l[0]) {
            Some(t) => seq![t].add(texts_of_list(l.skip(1))),
            None => texts_of_list(l.skip(1)),
        }
    }
}

/// An artwork URL read from a field value: a text leaf directly, or a nested
/// image structure through its `url` child (an RSS `image` block) or its
/// `@href` attribute (a vendor `image` tag).
pub open spec fn image_of(v: FieldValue) -> Option<Seq<char>> {
    match v {
        FieldValue::Text(s) => Some(s@),
        FieldValue::Nested(m) => match text_lookup(m@, "url"@) {
            Some(t) => Some(t),
            None => text_lookup(m@, "@href"@),
        },
        FieldValue::List(_) => None,
    }
}

/// Extracts an artwork URL, as `image_of` describes.
fn image_of_value(v: &FieldValue) -> (r: Option<&str>)
    ensures
        match r {
            Some(s) => image_of(*v) == Some(s@),
            None => image_of(*v) is None,
        },
{
    match v {
        FieldValue::Text(s) => Some(s.as_str()),
        FieldValue::Nested(m) => match text_lookup_of(m, "url") {
            Some(s) => Some(s),
            None => text_lookup_of(m, "@href"),
        },
        FieldValue::List(_) => None,
    }
}

/// The normalized channel record: the flat key-to-value map of the feed's
/// channel, with vendor keys restored to their `itunes:` form.
pub struct RawPodcast {
    pub entries: Vec<(String, FieldValue)>,
}

impl RawPodcast {
    /// Wraps a normalized channel map.
    pub fn new(raw: Vec<(String, FieldValue)>) -> (r: RawPodcast)
        ensures
            r.entries@ == raw@,
    {
        RawPodcast { entries: raw }
    }

    /// The text under `key`, when the key is present and carries text.
    pub fn get_str(&self, key: &str) -> (r: Option<&str>)
        ensures
            match r {
                Some(s) => text_lookup(self.entries@, key@) == Some(s@),
                None => text_lookup(self.entries@, key@) is None,
            },
    {
        text_lookup_of(&self.entries, key)
    }

    /// The channel title, when present.
    pub fn title(&self) -> (r: Option<&str>)
        ensures
            match r {
                Some(s) => text_lookup(self.entries@, "title"@) == Some(s@),
                None => text_lookup(self.entries@, "title"@) is None,
            },
    {
        self.get_str("title")
    }

    /// The vendor author field, when present.
    pub fn author(&self) -> (r: Option<&str>)
        ensures
            match r {
                Some(s) => text_lookup(self.entries@, "itunes:author"@) == Some(s@),
                None => text_lookup(self.entries@, "itunes:author"@) is None,
            },
    {
        self.get_str("itunes:author")
    }

    /// The vendor category list, zero or more entries: the texts of a
    /// category list's elements in feed order, the one text of a single
    /// category, and empty when the field is absent or carries no text.
    pub fn categories(&self) -> (r: Vec<&str>)
        ensures
            match lookup_entry(self.entries@, "itunes:category"@) {
                Some(FieldValue::List(l)) => r@.map_values(|s: &str| s@) == texts_of_list(l@),
                Some(v) => match field_text(v) {
                    Some(t) => r@.map_values(|s: &str| s@) == seq![t],
                    None => r@.len() == 0,
                },
                None => r@.len() == 0,
            },
    {
        let mut out: Vec<&str> = Vec::new();
        match entry_value(&self.entries, "itunes:category") {
            Some(FieldValue::List(l)) => {
                let mut i: usize = 0;
                proof {
                    assert(l@.skip(0) =~= l@);
                    assert(out@.map_values(|s: &str| s@) =~= Seq::<Seq<char>>::empty());
                }
                while i < l.len()
                    invariant
                        i <= l@.len(),
                        texts_of_list(l@) == out@.map_values(|s: &str| s@).add(
                            texts_of_list(l@.skip(i as int)),
                        ),
                    decreases l@.len() - i,
                {
                    let ghost pre = out@;
                    match field_text_of(&l[i]) {
                        Some(t) => {
                            out.push(t);
                            proof {
                                assert(out@.map_values(|s: &str| s@) =~= pre.map_values(
                                    |s: &str| s@,
                                ).push(t@));
                            }
                        },
                        None => {},
                    }
                    i = i + 1;
                    proof {
                        assert(l@.skip(i - 1)[0] == l@[i - 1]);
                        assert(l@.skip(i - 1).skip(1) =~= l@.skip(i as int));
                        assert(texts_of_list(l@) == out@.map_values(|s: &str| s@).add(
                            texts_of_list(l@.skip(i as int)),
                        ));
                    }
                }
                proof {
                    assert(out@.map_values(|s: &str| s@).add(Seq::<Seq<char>>::empty())
                        =~= out@.map_values(|s: &str| s@));
                }
            },
            Some(v) => match field_text_of(v) {
                Some(t) => {
                    out.push(t);
                    proof {
                        assert(out@.map_values(|s: &str| s@) =~= seq![t@]);
                    }
                },
                None => {},
            },
            None => {},
        }
        out
    }

    /// The channel copyright notice, when present.
    pub fn copyright(&self) -> (r: Option<&str>)
        ensures
            match r {
                Some(s) => text_lookup(self.entries@, "copyright"@) == Some(s@),
                None => text_lookup(self.entries@, "copyright"@) is None,
            },
    {
        self.get_str("copyright")
    }

    /// The channel language, when present.
    pub fn language(&self) -> (r: Option<&str>)
        ensures
            match r {
                Some(s) => text_lookup(self.entries@, "language"@) == Some(s@),
                None => text_lookup(self.entries@, "language"@) is None,
            },
    {
        self.get_str("language")
    }

    /// The channel artwork URL, resolved from the nested `image` structure.
    pub fn image(&self) -> (r: Option<&str>)
        ensures
            match (r, lookup_entry(self.entries@, "image"@)) {
                (Some(s), Some(v)) => image_of(v) == Some(s@),
                (None, Some(v)) => image_of(v) is None,
                (None, None) => true,
                (Some(_), None) => false,
            },
    {
        match entry_value(&self.entries, "image") {
            Some(v) => image_of_value(v),
            None => None,
        }
    }
}

/// The normalized record of one feed item, with vendor keys restored.
pub struct RawEpisode {
    pub entries: Vec<(String, FieldValue)>,
}

impl RawEpisode {
    /// Wraps a normalized item map.
    pub fn new(raw: Vec<(String, FieldValue)>) -> (r: RawEpisode)
        ensures
            r.entries@ == raw@,
    {
        RawEpisode { entries: raw }
    }

    /// The text under `key`, when the key is present and carries text.
    pub fn get_str(&self, key: &str) -> (r: Option<&str>)
        ensures
            match r {
                Some(s) => text_lookup(self.entries@, key@) == Some(s@),
                None => text_lookup(self.entries@, key@) is None,
            },
    {
        text_lookup_of(&self.entries, key)
    }

    /// The item's episode-level artwork URL, from the vendor image tag.
    pub fn image(&self) -> (r: Option<&str>)
        ensures
            match (r, lookup_entry(self.entries@, "itunes:image"@)) {
                (Some(s), Some(v)) => image_of(v) == Some(s@),
                (None, Some(v)) => image_of(v) is None,
                (None, None) => true,
                (Some(_), None) => false,
            },
    {
        match entry_value(&self.entries, "itunes:image") {
            Some(v) => image_of_value(v),
            None => None,
        }
    }
}

/// Carrier for `serde_json::Value`, the converted form of the feed text.
#[verifier::external_type_specification]
#[verifier::external_body]
pub struct ExValue(serde_json::Value);

/// Carrier for `serde_json::Number`, a numeric leaf of a converted feed.
#[verifier::external_type_specification]
#[verifier::external_body]
pub struct ExNumber(serde_json::Number);

/// One step of the converted feed value, with its children still opaque.
enum ValueNode {
    Text(String),
    Items(Vec<serde_json::Value>),
    Entries(Vec<(String, serde_json::Value)>),
    Numeric(serde_json::Number),
    Flag(bool),
    Empty,
}

/// The record shape a converted feed value holds: a name for the contents
/// of an opaque `serde_json::Value`. Strings model as text leaves, numbers
/// as their rendered text, booleans as `true`/`false` text, null as an
/// empty record, arrays as lists and objects as records in map order; the
/// trusted items below state exactly these facts of it.
pub uninterp spec fn value_model(v: serde_json::Value) -> FieldModel;

/// A name for what the XML-to-map conversion yields on a given text: the
/// model of the converted value, or `None` when the text does not parse.
/// The conversion depends on the text alone.
pub uninterp spec fn parsed_model_of(text: Seq<char>) -> Option<FieldModel>;

/// A name for how serde_json renders a number as text; the rendering
/// depends on the number alone.
pub uninterp spec fn number_rep(n: serde_json::Number) -> Seq<char>;

/// Relies on `quickxml_to_serde::xml_str_to_json`, with its default
/// configuration (`Config::new_with_defaults`: `@` attribute prefix, `#text`
/// text nodes): converts feed text into a JSON value whose contents are
/// `parsed_model_of` the text, or `None` exactly when the text is not
/// well-formed XML.
#[verifier::external_body]
fn parse_xml(xml: &str) -> (r: Option<serde_json::Value>)
    ensures
        match r {
            Some(v) => parsed_model_of(xml@) == Some(value_model(v)),
            None => parsed_model_of(xml@) is None,
        },
{
    let conf = quickxml_to_serde::Config::new_with_defaults();
    quickxml_to_serde::xml_str_to_json(xml, &conf).ok()
}

/// Relies on `serde_json::Value::get_mut`: hands the child under `key` out
/// of an object value — the entry of that key, unique in the underlying
/// map — or `None` when the value is no object or the key is absent; the
/// child is replaced by null in place.
#[verifier::external_body]
fn take_child(v: &mut serde_json::Value, key: &str) -> (r: Option<serde_json::Value>)
    ensures
        match r {
            Some(c) => model_child(value_model(*old(v)), key@) == Some(value_model(c)),
            None => model_child(value_model(*old(v)), key@) is None,
        },
{
    v.get_mut(key).map(std::mem::take)
}

/// Relies on the variants of `serde_json::Value`: each arm moves the
/// carried data out unchanged, an object's entries in their map order. The
/// clauses state what `value_model` is for each variant.
#[verifier::external_body]
fn value_node(v: serde_json::Value) -> (r: ValueNode)
    ensures
        r matches ValueNode::Text(s) ==> value_model(v) == FieldModel::Text(s@),
        r matches ValueNode::Numeric(n) ==> value_model(v) == FieldModel::Text(number_rep(n)),
        r matches ValueNode::Flag(b) ==> value_model(v) == FieldModel::Text(
            if b {
                "true"@
            } else {
                "false"@
            },
        ),
        r is Empty ==> value_model(v) == FieldModel::Nested(Seq::empty()),
        r matches ValueNode::Items(items) ==> value_model(v) == FieldModel::List(
            Seq::new(items@.len(), |i: int| value_model(items@[i])),
        ),
        r matches ValueNode::Entries(es) ==> value_model(v) == FieldModel::Nested(
            Seq::new(es@.len(), |i: int| (es@[i].0@, value_model(es@[i].1))),
        ),
{
    match v {
        serde_json::Value::Null => ValueNode::Empty,
        serde_json::Value::Bool(b) => ValueNode::Flag(b),
        serde_json::Value::Number(n) => ValueNode::Numeric(n),
        serde_json::Value::String(s) => ValueNode::Text(s),
        serde_json::Value::Array(a) => ValueNode::Items(a),
        serde_json::Value::Object(m) => ValueNode::Entries(m.into_iter().collect()),
    }
}

/// Relies on `serde_json::Number`'s `Display` implementation: renders the
/// number as serde_json prints it; the text is `number_rep` of the number
/// alone.
#[verifier::external_body]
fn number_text(n: &serde_json::Number) -> (r: String)
    ensures
        r@ == number_rep(*n),
{
    n.to_string()
}

/// Turns a converted feed value into the library's own record shape,
/// restoring every placeholder-prefixed key on the way: the result's model
/// is exactly the restored model of the value's contents. Termination
/// follows the value's model.
fn convert_value(v: serde_json::Value) -> (r: FieldValue)
    ensures
        field_model(r) == restore_model(value_model(v)),
    decreases value_model(v),
{
    match value_node(v) {
        ValueNode::Text(s) => FieldValue::Text(s),
        ValueNode::Numeric(n) => FieldValue::Text(number_text(&n)),
        ValueNode::Flag(b) => FieldValue::Text(
            if b {
                "true".to_owned()
            } else {
                "false".to_owned()
            },
        ),
        ValueNode::Empty => {
            let r = FieldValue::Nested(Vec::new());
            proof {
                assert(field_model(r)->Nested_0 =~= Seq::<(Seq<char>, FieldModel)>::empty());
                assert(restore_model(value_model(v))->Nested_0 =~= Seq::<
                    (Seq<char>, FieldModel),
                >::empty());
                assert(field_model(r) =~= restore_model(value_model(v)));
            }
            r
        },
        ValueNode::Items(items) => {
            let ghost items0 = items@;
            let ghost s_model = Seq::new(items0.len(), |i: int| value_model(items0[i]));
            proof {
                assert(value_model(v) == FieldModel::List(s_model));
            }
            let mut rest = items;
            let mut out: Vec<FieldValue> = Vec::new();
            let mut k: usize = 0;
            while rest.len() > 0
                invariant
                    value_model(v) == FieldModel::List(s_model),
                    s_model.len() == items0.len(),
                    forall|i: int|
                        0 <= i < s_model.len() ==> #[trigger] s_model[i] == value_model(
                            items0[i],
                        ),
                    k == out@.len(),
                    k + rest@.len() == items0.len(),
                    rest@ == items0.skip(k as int),
                    forall|j: int|
                        0 <= j < k ==> field_model(#[trigger] out@[j]) == restore_model(
                            s_model[j],
                        ),
                decreases rest@.len(),
            {
                let child = rest.remove(0);
                proof {
                    assert(items0.skip(k as int)[0] == items0[k as int]);
                    assert(items0.skip(k as int).skip(1) =~= items0.skip(k + 1));
                    assert(s_model[k as int] == value_model(child));
                    assert(decreases_to!(value_model(v) => value_model(v)->List_0));
                    assert(decreases_to!(s_model => s_model[k as int]));
                }
                let cv = convert_value(child);
                out.push(cv);
                k = out.len();
            }
            let r = FieldValue::List(out);
            proof {
                assert(field_model(r)->List_0 =~= restore_model(value_model(v))->List_0);
                assert(field_model(r) == restore_model(value_model(v)));
            }
            r
        },
        ValueNode::Entries(entries) => {
            let ghost entries0 = entries@;
            let ghost s_model = Seq::new(
                entries0.len(),
                |i: int| (entries0[i].0@, value_model(entries0[i].1)),
            );
            proof {
                assert(value_model(v) == FieldModel::Nested(s_model));
            }
            let mut rest = entries;
            let mut out: Vec<(String, FieldValue)> = Vec::new();
            let mut k: usize = 0;
            while rest.len() > 0
                invariant
                    value_model(v) == FieldModel::Nested(s_model),
                    s_model.len() == entries0.len(),
                    forall|i: int|
                        0 <= i < s_model.len() ==> #[trigger] s_model[i] == (
                            entries0[i].0@,
                            value_model(entries0[i].1),
                        ),
                    k == out@.len(),
                    k + rest@.len() == entries0.len(),
                    rest@ == entries0.skip(k as int),
                    forall|j: int|
                        0 <= j < k ==> (#[trigger] out@[j]).0@ == restore_key_spec(s_model[j].0)
                            && field_model(out@[j].1) == restore_model(s_model[j].1),
                decreases rest@.len(),
            {
                let (key, child) = rest.remove(0);
                proof {
                    assert(entries0.skip(k as int)[0] == entries0[k as int]);
                    assert(entries0.skip(k as int).skip(1) =~= entries0.skip(k + 1));
                    assert(s_model[k as int] == (entries0[k as int].0@, value_model(child)));
                    assert(decreases_to!(value_model(v) => value_model(v)->Nested_0));
                    assert(decreases_to!(s_model => s_model[k as int]));
                    assert(decreases_to!(s_model[k as int] => s_model[k as int].1));
                }
                let restored = restore_key(key.as_str());
                let cv = convert_value(child);
                out.push((restored, cv));
                k = out.len();
            }
            let r = FieldValue::Nested(out);
            proof {
                assert(field_model(r)->Nested_0 =~= restore_model(value_model(v))->Nested_0);
                assert(field_model(r) == restore_model(value_model(v)));
            }
            r
        },
    }
}

/// Exactly what `build_records` returns for a given channel value: a
/// non-record channel or a non-record list element is malformed; a missing
/// or text-valued `item` entry means there are no items; a single item
/// record — what the conversion yields for a feed with exactly one item —
/// is one episode; otherwise the channel record is the channel map with the
/// `item` entry moved out, and the item records are the list elements in
/// feed order.
pub open spec fn build_records_post(
    channel: FieldValue,
    r: Result<(RawPodcast, Vec<RawEpisode>), ParseError>,
) -> bool {
    match channel {
        FieldValue::Nested(entries) => match lookup_entry(entries@, "item"@) {
            None => r == Err::<(RawPodcast, Vec<RawEpisode>), ParseError>(ParseError::MissingItems),
            Some(FieldValue::List(l)) => if forall|i: int|
                0 <= i < l@.len() ==> (#[trigger] l[i]) is Nested {
                &&& r is Ok
                &&& r->Ok_0.0.entries@ == entries@.remove(lookup_index(entries@, "item"@))
                &&& r->Ok_0.1@.len() == l@.len()
                &&& forall|i: int|
                    0 <= i < l@.len() ==> (#[trigger] r->Ok_0.1@[i]).entries@ == l[i]->Nested_0@
            } else {
                r == Err::<(RawPodcast, Vec<RawEpisode>), ParseError>(ParseError::MalformedFeed)
            },
            Some(FieldValue::Nested(m)) => {
                &&& r is Ok
                &&& r->Ok_0.0.entries@ == entries@.remove(lookup_index(entries@, "item"@))
                &&& r->Ok_0.1@.len() == 1
                &&& r->Ok_0.1@[0].entries@ == m@
            },
            Some(_) => r == Err::<(RawPodcast, Vec<RawEpisode>), ParseError>(
                ParseError::MissingItems,
            ),
        },
        _ => r == Err::<(RawPodcast, Vec<RawEpisode>), ParseError>(ParseError::MalformedFeed),
    }
}

/// Builds the channel record and the ordered item records out of a converted
/// channel value: the channel must be a record, its `item` entry a list of
/// records or a single record. The item entry itself moves out of the
/// channel record into the episode list.
pub fn build_records(channel: FieldValue) -> (r: Result<(RawPodcast, Vec<RawEpisode>), ParseError>)
    ensures
        build_records_post(channel, r),
{
    let mut entries = match channel {
        FieldValue::Nested(entries) => entries,
        _ => {
            return Err(ParseError::MalformedFeed);
        },
    };
    let ghost entries0 = entries@;
    proof {
        lemma_lookup_index_props(entries@, "item"@);
    }
    let idx = match find_entry(&entries, "item") {
        Some(i) => i,
        None => {
            return Err(ParseError::MissingItems);
        },
    };
    let (_, item_field) = entries.remove(idx);
    let ghost gitem = item_field;
    proof {
        assert(lookup_entry(entries0, "item"@) == Some(gitem));
    }
    let items = match item_field {
        FieldValue::List(l) => l,
        FieldValue::Nested(m) => {
            let mut single: Vec<FieldValue> = Vec::new();
            single.push(FieldValue::Nested(m));
            single
        },
        _ => {
            return Err(ParseError::MissingItems);
        },
    };
    let ghost l0 = items@;
    proof {
        if gitem is List {
            assert(gitem->List_0@ == l0);
        } else {
            assert(l0 =~= seq![gitem]);
        }
    }
    let mut rest = items;
    let mut eps: Vec<RawEpisode> = Vec::new();
    proof {
        assert(l0 =~= eps@.map_values(|e: RawEpisode| FieldValue::Nested(e.entries)).add(rest@));
    }
    while rest.len() > 0
        invariant
            channel is Nested,
            channel->Nested_0@ == entries0,
            lookup_entry(entries0, "item"@) == Some(gitem),
            (gitem is List && gitem->List_0@ == l0) || (gitem is Nested && l0 == seq![gitem]),
            entries@ == entries0.remove(lookup_index(entries0, "item"@)),
            l0 == eps@.map_values(|e: RawEpisode| FieldValue::Nested(e.entries)).add(rest@),
            forall|i: int| 0 <= i < eps@.len() ==> (#[trigger] l0[i]) is Nested,
            forall|i: int|
                0 <= i < eps@.len() ==> (#[trigger] eps@[i]).entries@ == l0[i]->Nested_0@,
        decreases rest@.len(),
    {
        let ghost pre = eps@;
        let item = rest.remove(0);
        match item {
            FieldValue::Nested(m) => {
                eps.push(RawEpisode { entries: m });
                proof {
                    assert(l0 =~= eps@.map_values(|e: RawEpisode| FieldValue::Nested(e.entries))
                        .add(rest@));
                }
            },
            _ => {
                proof {
                    let bad = pre.len() as int;
                    assert(l0[bad] == item);
                    assert(!(l0[bad] is Nested));
                }
                return Err(ParseError::MalformedFeed);
            },
        }
    }
    proof {
        assert(l0 =~= eps@.map_values(|e: RawEpisode| FieldValue::Nested(e.entries)));
        assert(forall|i: int| 0 <= i < l0.len() ==> (#[trigger] l0[i]) is Nested);
    }
    Ok((RawPodcast { entries }, eps))
}

/// The model the feed text converts to, located at its channel: the vendor
/// prefix escaped in the text, the text converted, and the `rss` and
/// `channel` children looked up; `None` when any step fails.
pub open spec fn normalized_channel_model(xml: Seq<char>) -> Option<FieldModel> {
    let escaped = replace_from(xml, 0, vendor_prefix(), placeholder_prefix());
    match parsed_model_of(escaped) {
        Some(root) => match model_child(root, "rss"@) {
            Some(rss) => model_child(rss, "channel"@),
            None => None,
        },
        None => None,
    }
}

/// Exactly what `normalize_feed` returns: a malformed feed — text that does
/// not convert, or no `rss`/`channel` to locate — fails as such; otherwise
/// the result is what `build_records` yields on the channel value whose
/// model is the located channel model with every key restored (which covers
/// the missing-item-list failure).
pub open spec fn normalize_feed_post(
    xml: Seq<char>,
    r: Result<(RawPodcast, Vec<RawEpisode>), ParseError>,
) -> bool {
    match normalized_channel_model(xml) {
        None => r == Err::<(RawPodcast, Vec<RawEpisode>), ParseError>(ParseError::MalformedFeed),
        Some(cm) => exists|channel: FieldValue|
            field_model(channel) == restore_model(cm) && #[trigger] build_records_post(channel, r),
    }
}

/// Normalizes raw feed text: escapes the vendor prefix, runs the generic
/// XML-to-map conversion, restores every key, and splits the result into
/// the channel record and the ordered item records, as
/// `normalize_feed_post` describes.
pub fn normalize_feed(xml: &str) -> (r: Result<(RawPodcast, Vec<RawEpisode>), ParseError>)
    ensures
        normalize_feed_post(xml@, r),
{
    let escaped = escape_vendor_text(xml);
    let mut root = match parse_xml(escaped.as_str()) {
        Some(v) => v,
        None => {
            return Err(ParseError::MalformedFeed);
        },
    };
    let ghost root_model = value_model(root);
    let mut rss = match take_child(&mut root, "rss") {
        Some(v) => v,
        None => {
            return Err(ParseError::MalformedFeed);
        },
    };
    let ghost rss_model = value_model(rss);
    let channel = match take_child(&mut rss, "channel") {
        Some(v) => v,
        None => {
            return Err(ParseError::MalformedFeed);
        },
    };
    let ghost chan_model = value_model(channel);
    proof {
        assert(normalized_channel_model(xml@) == Some(chan_model));
    }
    let converted = convert_value(channel);
    let r = build_records(converted);
    proof {
        assert(field_model(converted) == restore_model(chan_model) && build_records_post(
            converted,
            r,
        ));
    }
    r
}

} // verus!
