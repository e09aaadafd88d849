//! The episode model: stable attributes derived from each raw item, and
//! the sorted episode list with dense indices in ascending publish order.

use vstd::prelude::*;
use vstd::multiset::Multiset;

use crate::feed::{
    image_of, lookup_entry, text_lookup, FieldValue, RawEpisode, RawPodcast,
};
use crate::time::parse_rfc2822_spec;

verus! {

broadcast use vstd::seq_lib::group_to_multiset_ensures;

/// The media URL of an item's enclosure, when the enclosure is present and
/// carries one.
pub open spec fn enclosure_url(entries: Seq<(String, FieldValue)>) -> Option<Seq<char>> {
    match lookup_entry(entries, "enclosure"@) {
        Some(FieldValue::Nested(m)) => text_lookup(m@, "@url"@),
        _ => None,
    }
}

/// The parsed publish timestamp of an item, when its date field is present
/// and well-formed.
pub open spec fn pubdate_of(entries: Seq<(String, FieldValue)>) -> Option<int> {
    match text_lookup(entries, "pubDate"@) {
        Some(d) => parse_rfc2822_spec(d),
        None => None,
    }
}

/// The derived attributes of an item: title, guid, media URL and publish
/// timestamp, available only when every one of them is.
pub open spec fn attrs_of(entries: Seq<(String, FieldValue)>) -> Option<
    (Seq<char>, Seq<char>, Seq<char>, int),
> {
    match (
        text_lookup(entries, "title"@),
        text_lookup(entries, "guid"@),
        enclosure_url(entries),
        pubdate_of(entries),
    ) {
        (Some(t), Some(g), Some(u), Some(p)) => Some((t, g, u, p)),
        _ => None,
    }
}

/// The stable attributes of one episode, with the raw item kept for field
/// lookups by the pattern language.
pub struct EpisodeAttributes {
    pub title: String,
    pub guid: String,
    pub url: String,
    pub published: i64,
    pub raw: RawEpisode,
}

impl EpisodeAttributes {
    /// Derives the attributes of a raw item, as `attrs_of` describes;
    /// `None` when the title, guid, enclosure URL or publish date is
    /// missing or malformed, or the timestamp leaves the machine range.
    pub fn new(raw: RawEpisode) -> (r: Option<EpisodeAttributes>)
        ensures
            match r {
                Some(a) => attrs_of(raw.entries@) == Some(
                    (a.title@, a.guid@, a.url@, a.published as int),
                ) && a.raw == raw,
                None => attrs_of(raw.entries@) is None,
            },
    {
        let title = match raw.get_str("title") {
            Some(t) => t.to_owned(),
            None => {
                return None;
            },
        };
        let guid = match raw.get_str("guid") {
            Some(g) => g.to_owned(),
            None => {
                return None;
            },
        };
        let url = match crate::feed::entry_value(&raw.entries, "enclosure") {
            Some(FieldValue::Nested(m)) => match crate::feed::text_lookup_of(m, "@url") {
                Some(u) => u.to_owned(),
                None => {
                    return None;
                },
            },
            _ => {
                return None;
            },
        };
        let published = match raw.get_str("pubDate") {
            Some(d) => match crate::time::parse_rfc2822(d) {
                Some(p) => p,
                None => {
                    return None;
                },
            },
            None => {
                return None;
            },
        };
        Some(EpisodeAttributes { title, guid, url, published, raw })
    }
}

/// One episode of the sorted list: its attributes, its dense index in
/// ascending publish order, and its resolved artwork URL.
pub struct Episode {
    pub attrs: EpisodeAttributes,
    pub index: usize,
    pub image_url: Option<String>,
}

/// The artwork URL of an episode: its own vendor image tag when it carries
/// one, else the channel's image.
pub open spec fn episode_image_spec(
    raw: Seq<(String, FieldValue)>,
    chan: Seq<(String, FieldValue)>,
) -> Option<Seq<char>> {
    let own = match lookup_entry(raw, "itunes:image"@) {
        Some(v) => image_of(v),
        None => None,
    };
    match own {
        Some(u) => Some(u),
        None => match lookup_entry(chan, "image"@) {
            Some(v) => image_of(v),
            None => None,
        },
    }
}

/// Resolves an episode's artwork URL, as `episode_image_spec` describes.
fn resolve_image(raw: &RawEpisode, chan: &RawPodcast) -> (r: Option<String>)
    ensures
        match r {
            Some(u) => episode_image_spec(raw.entries@, chan.entries@) == Some(u@),
            None => episode_image_spec(raw.entries@, chan.entries@) is None,
        },
{
    match raw.image() {
        Some(u) => Some(u.to_owned()),
        None => match chan.image() {
            Some(u) => Some(u.to_owned()),
            None => None,
        },
    }
}

/// The attribute tuples of the items that carry full attributes, in feed
/// order.
pub open spec fn kept_attrs(raws: Seq<RawEpisode>, i: int) -> Seq<
    (Seq<char>, Seq<char>, Seq<char>, int),
>
    decreases raws.len() - i,
{
    if i < 0 || i >= raws.len() {
        Seq::empty()
    } else {
        match attrs_of(raws[i].entries@) {
            Some(a) => seq![a].add(kept_attrs(raws, i + 1)),
            None => kept_attrs(raws, i + 1),
        }
    }
}

/// The attribute tuple a parsed episode stands for.
pub open spec fn attrs_model(a: EpisodeAttributes) -> (Seq<char>, Seq<char>, Seq<char>, int) {
    (a.title@, a.guid@, a.url@, a.published as int)
}

/// The position of an attribute list's earliest publish time.
fn argmin_published(v: &Vec<EpisodeAttributes>) -> (r: usize)
    requires
        v@.len() > 0,
    ensures
        r < v@.len(),
        forall|k: int| 0 <= k < v@.len() ==> v@[r as int].published <= (#[trigger] v@[k]).published,
{
    let mut best: usize = 0;
    let mut i: usize = 1;
    while i < v.len()
        invariant
            best < i <= v@.len(),
            forall|k: int| 0 <= k < i ==> v@[best as int].published <= (#[trigger] v@[k]).published,
        decreases v@.len() - i,
    {
        if v[i].published < v[best].published {
            best = i;
        }
        i = i + 1;
    }
    best
}

/// Builds the sorted episode list of one subscription: items with full
/// attributes are kept, ordered by ascending publish time, given dense
/// indices in that order, and each is paired with its resolved artwork URL.
pub fn build_episodes(raws: Vec<RawEpisode>, chan: &RawPodcast) -> (eps: Vec<Episode>)
    ensures
        eps@.map_values(|e: Episode| attrs_model(e.attrs)).to_multiset() == kept_attrs(
            raws@,
            0,
        ).to_multiset(),
        forall|i: int, j: int|
            0 <= i <= j < eps@.len() ==> (#[trigger] eps@[i]).attrs.published <= (
            #[trigger] eps@[j]).attrs.published,
        forall|i: int| 0 <= i < eps@.len() ==> (#[trigger] eps@[i]).index == i,
        forall|i: int|
            0 <= i < eps@.len() ==> attrs_of((#[trigger] eps@[i]).attrs.raw.entries@) == Some(
                attrs_model(eps@[i].attrs),
            ),
        forall|i: int|
            0 <= i < eps@.len() ==> match (#[trigger] eps@[i]).image_url {
                Some(u) => episode_image_spec(eps@[i].attrs.raw.entries@, chan.entries@) == Some(
                    u@,
                ),
                None => episode_image_spec(eps@[i].attrs.raw.entries@, chan.entries@) is None,
            },
{
    let ghost raws0 = raws@;
    let mut rest = raws;
    let mut parsed: Vec<EpisodeAttributes> = Vec::new();
    proof {
        assert(parsed@.map_values(|a: EpisodeAttributes| attrs_model(a)) =~= Seq::<
            (Seq<char>, Seq<char>, Seq<char>, int),
        >::empty());
        assert(kept_attrs(raws0, 0) =~= Seq::<(Seq<char>, Seq<char>, Seq<char>, int)>::empty().add(
            kept_attrs(raws0, 0),
        ));
    }
    let ghost gi: int = 0;
    while rest.len() > 0
        invariant
            0 <= gi <= raws0.len(),
            rest@ == raws0.skip(gi),
            kept_attrs(raws0, 0) == parsed@.map_values(|a: EpisodeAttributes| attrs_model(a)).add(
                kept_attrs(raws0, gi),
            ),
            forall|j: int|
                0 <= j < parsed@.len() ==> attrs_of((#[trigger] parsed@[j]).raw.entries@) == Some(
                    attrs_model(parsed@[j]),
                ),
        decreases rest@.len(),
    {
        let ghost pre = parsed@;
        let raw = rest.remove(0);
        proof {
            assert(raws0.skip(gi)[0] == raws0[gi]);
            assert(raw == raws0[gi]);
            assert(raws0.skip(gi).skip(1) =~= raws0.skip(gi + 1));
        }
        match EpisodeAttributes::new(raw) {
            Some(a) => {
                parsed.push(a);
                proof {
                    assert(parsed@.map_values(|x: EpisodeAttributes| attrs_model(x)) =~= pre
                        .map_values(|x: EpisodeAttributes| attrs_model(x)).push(attrs_model(a)));
                    assert(seq![attrs_model(a)].add(kept_attrs(raws0, gi + 1)) =~= kept_attrs(
                        raws0,
                        gi,
                    ));
                    assert(pre.map_values(|x: EpisodeAttributes| attrs_model(x)).push(
                        attrs_model(a),
                    ).add(kept_attrs(raws0, gi + 1)) =~= pre.map_values(
                        |x: EpisodeAttributes| attrs_model(x),
                    ).add(kept_attrs(raws0, gi)));
                }
            },
            None => {},
        }
        proof {
            gi = gi + 1;
        }
    }
    proof {
        assert(kept_attrs(raws0, gi) =~= Seq::<(Seq<char>, Seq<char>, Seq<char>, int)>::empty());
        assert(parsed@.map_values(|a: EpisodeAttributes| attrs_model(a)).add(Seq::<
            (Seq<char>, Seq<char>, Seq<char>, int),
        >::empty()) =~= parsed@.map_values(|a: EpisodeAttributes| attrs_model(a)));
    }
    let ghost parsed0 = parsed@;
    let mut src = parsed;
    let mut sorted: Vec<EpisodeAttributes> = Vec::new();
    proof {
        assert(sorted@.map_values(|x: EpisodeAttributes| attrs_model(x)).to_multiset()
            =~= Multiset::<(Seq<char>, Seq<char>, Seq<char>, int)>::empty());
        assert(parsed0.map_values(|x: EpisodeAttributes| attrs_model(x)).to_multiset() =~= src@
            .map_values(|x: EpisodeAttributes| attrs_model(x)).to_multiset().add(
            sorted@.map_values(|x: EpisodeAttributes| attrs_model(x)).to_multiset(),
        ));
    }
    while src.len() > 0
        invariant
            parsed0.map_values(|x: EpisodeAttributes| attrs_model(x)).to_multiset() == src@
                .map_values(|x: EpisodeAttributes| attrs_model(x)).to_multiset().add(
                sorted@.map_values(|x: EpisodeAttributes| attrs_model(x)).to_multiset(),
            ),
            forall|i: int, j: int|
                0 <= i <= j < sorted@.len() ==> (#[trigger] sorted@[i]).published <= (
                #[trigger] sorted@[j]).published,
            forall|i: int, j: int|
                0 <= i < sorted@.len() && 0 <= j < src@.len() ==> (#[trigger] sorted@[i]).published
                    <= (#[trigger] src@[j]).published,
            forall|j: int|
                0 <= j < src@.len() ==> attrs_of((#[trigger] src@[j]).raw.entries@) == Some(
                    attrs_model(src@[j]),
                ),
            forall|j: int|
                0 <= j < sorted@.len() ==> attrs_of((#[trigger] sorted@[j]).raw.entries@) == Some(
                    attrs_model(sorted@[j]),
                ),
        decreases src@.len(),
    {
        let ghost src_pre = src@;
        let ghost sorted_pre = sorted@;
        let p = argmin_published(&src);
        let a = src.remove(p);
        sorted.push(a);
        proof {
            let am = |x: EpisodeAttributes| attrs_model(x);
            let ma = attrs_model(a);
            assert(src_pre.map_values(am)[p as int] == ma);
            assert(src_pre.map_values(am).contains(ma));
            assert(src@.map_values(am) =~= src_pre.map_values(am).remove(p as int));
            assert(src@.map_values(am).to_multiset() =~= src_pre.map_values(am).to_multiset()
                .remove(ma));
            assert(sorted@.map_values(am) =~= sorted_pre.map_values(am).push(ma));
            assert(sorted@.map_values(am).to_multiset() =~= sorted_pre.map_values(am).to_multiset()
                .insert(ma));
            assert(src_pre.map_values(am).to_multiset().count(ma) >= 1);
            assert(src@.map_values(am).to_multiset().add(sorted@.map_values(am).to_multiset())
                =~= src_pre.map_values(am).to_multiset().add(sorted_pre.map_values(am)
                .to_multiset()));
        }
    }
    proof {
        let am = |x: EpisodeAttributes| attrs_model(x);
        assert(src@.map_values(am).to_multiset() =~= Multiset::<
            (Seq<char>, Seq<char>, Seq<char>, int),
        >::empty());
        assert(src@.map_values(am).to_multiset().add(sorted@.map_values(am).to_multiset())
            =~= sorted@.map_values(am).to_multiset());
    }
    let ghost sorted0 = sorted@;
    let mut rest2 = sorted;
    let mut eps: Vec<Episode> = Vec::new();
    while rest2.len() > 0
        invariant
            sorted0 == eps@.map_values(|e: Episode| e.attrs).add(rest2@),
            forall|i: int| 0 <= i < eps@.len() ==> (#[trigger] eps@[i]).index == i,
            forall|i: int|
                0 <= i < eps@.len() ==> match (#[trigger] eps@[i]).image_url {
                    Some(u) => episode_image_spec(eps@[i].attrs.raw.entries@, chan.entries@)
                        == Some(u@),
                    None => episode_image_spec(eps@[i].attrs.raw.entries@, chan.entries@) is None,
                },
            forall|j: int|
                0 <= j < sorted0.len() ==> attrs_of((#[trigger] sorted0[j]).raw.entries@) == Some(
                    attrs_model(sorted0[j]),
                ),
            forall|i: int|
                0 <= i < eps@.len() ==> attrs_of((#[trigger] eps@[i]).attrs.raw.entries@) == Some(
                    attrs_model(eps@[i].attrs),
                ),
            eps@.len() + rest2@.len() == sorted0.len(),
        decreases rest2@.len(),
    {
        let ghost pre = eps@;
        let a = rest2.remove(0);
        proof {
            assert(sorted0[pre.len() as int] == a);
        }
        let image_url = resolve_image(&a.raw, chan);
        let idx = eps.len();
        eps.push(Episode { attrs: a, index: idx, image_url });
        proof {
            assert(sorted0 =~= eps@.map_values(|e: Episode| e.attrs).add(rest2@));
        }
    }
    proof {
        assert(sorted0 =~= eps@.map_values(|e: Episode| e.attrs));
        assert(eps@.map_values(|e: Episode| attrs_model(e.attrs)) =~= sorted0.map_values(
            |a: EpisodeAttributes| attrs_model(a),
        ));
        lemma_map_to_multiset(eps@.map_values(|e: Episode| attrs_model(e.attrs)), sorted0
            .map_values(|a: EpisodeAttributes| attrs_model(a)));
        lemma_sorted_map(sorted0, eps@);
    }
    eps
}

/// Equal sequences carry equal multisets.
proof fn lemma_map_to_multiset(
    a: Seq<(Seq<char>, Seq<char>, Seq<char>, int)>,
    b: Seq<(Seq<char>, Seq<char>, Seq<char>, int)>,
)
    requires
        a == b,
    ensures
        a.to_multiset() == b.to_multiset(),
{
}

/// Sortedness of the attribute list carries over to the episode list built
/// on it.
proof fn lemma_sorted_map(sorted0: Seq<EpisodeAttributes>, eps: Seq<Episode>)
    requires
        sorted0 == eps.map_values(|e: Episode| e.attrs),
        forall|i: int, j: int|
            0 <= i <= j < sorted0.len() ==> (#[trigger] sorted0[i]).published <= (
            #[trigger] sorted0[j]).published,
    ensures
        forall|i: int, j: int|
            0 <= i <= j < eps.len() ==> (#[trigger] eps[i]).attrs.published <= (
            #[trigger] eps[j]).attrs.published,
{
    assert forall|i: int, j: int| 0 <= i <= j < eps.len() implies (#[trigger] eps[i]).attrs
        .published <= (#[trigger] eps[j]).attrs.published by {
        assert(sorted0[i] == eps[i].attrs);
        assert(sorted0[j] == eps[j].attrs);
    }
}

} // verus!
