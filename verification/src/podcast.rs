//! One subscription's sorted episode list and release mode, and the queue
//! of episodes currently due: episodes whose computed ledger id is not in
//! the ledger and whose index the mode admits, ordered oldest-first for a
//! backlog and newest-first otherwise.

use vstd::prelude::*;

use crate::episode::Episode;
use crate::ledger::{ledger_line_spec, ledger_text_ids, lemma_appended_id_is_recorded, line_fields_wf, Ledger};
use crate::policy::{mode_eligible, mode_wf, DownloadMode};

verus! {

/// One subscription: its episodes sorted ascending by publish time with
/// dense indices, and its release mode.
pub struct Podcast {
    pub episodes: Vec<Episode>,
    pub mode: DownloadMode,
}

/// A usable subscription: the mode's parameters are usable and the episode
/// indices are dense in list order.
pub open spec fn podcast_wf(p: Podcast) -> bool {
    &&& mode_wf(p.mode)
    &&& forall|i: int| 0 <= i < p.episodes@.len() ==> (#[trigger] p.episodes@[i]).index == i
}

/// The character sequences of a list of computed ledger ids.
pub open spec fn id_views(ids: Seq<String>) -> Seq<Seq<char>> {
    ids.map_values(|s: String| s@)
}

/// Whether one episode is due: its computed ledger id — the id the ledger
/// file records for it — is not in the ledger, and the release mode admits
/// its index against the subscription's highest index.
pub open spec fn episode_due(p: Podcast, ledger: Ledger, now: int, ep: Episode, id: Seq<char>) -> bool {
    &&& !ledger.contains_id(id)
    &&& mode_eligible(
        p.mode,
        now,
        ep.attrs.published as int,
        ep.index as int,
        p.episodes@.len() - 1,
    )
}

/// The due episodes from position `i` on, in index order; `ids` carries the
/// computed ledger id of each episode, by position.
pub open spec fn eligible_from(
    p: Podcast,
    ids: Seq<Seq<char>>,
    ledger: Ledger,
    now: int,
    i: int,
) -> Seq<Episode>
    decreases p.episodes@.len() - i,
{
    if i < 0 || i >= p.episodes@.len() {
        Seq::empty()
    } else if episode_due(p, ledger, now, p.episodes@[i], ids[i]) {
        seq![p.episodes@[i]].add(eligible_from(p, ids, ledger, now, i + 1))
    } else {
        eligible_from(p, ids, ledger, now, i + 1)
    }
}

/// The download queue: due episodes oldest-first for a backlog, newest-first
/// for a standard subscription.
pub open spec fn pending_spec(p: Podcast, ids: Seq<Seq<char>>, ledger: Ledger, now: int) -> Seq<
    Episode,
> {
    match p.mode {
        DownloadMode::Backlog { .. } => eligible_from(p, ids, ledger, now, 0),
        DownloadMode::Standard { .. } => eligible_from(p, ids, ledger, now, 0).reverse(),
    }
}

/// No due episode's computed id is ledgered.
proof fn lemma_eligible_from_excludes(
    p: Podcast,
    ids: Seq<Seq<char>>,
    ledger: Ledger,
    now: int,
    i: int,
    id: Seq<char>,
)
    requires
        ledger.contains_id(id),
        podcast_wf(p),
    ensures
        forall|k: int|
            0 <= k < eligible_from(p, ids, ledger, now, i).len() ==> ids[(#[trigger] eligible_from(
                p,
                ids,
                ledger,
                now,
                i,
            )[k]).index as int] != id,
    decreases p.episodes@.len() - i,
{
    if 0 <= i < p.episodes@.len() {
        lemma_eligible_from_excludes(p, ids, ledger, now, i + 1, id);
    }
}

/// Ledger idempotence: once an episode's computed id stands in the ledger —
/// however many duplicate lines recorded it — that episode never reaches
/// the download queue again: the queue holds no episode whose computed id
/// it is.
pub proof fn lemma_ledger_idempotence(
    p: Podcast,
    ids: Seq<Seq<char>>,
    ledger: Ledger,
    now: int,
    id: Seq<char>,
)
    requires
        ledger.contains_id(id),
        podcast_wf(p),
    ensures
        forall|k: int|
            0 <= k < pending_spec(p, ids, ledger, now).len() ==> ids[(#[trigger] pending_spec(
                p,
                ids,
                ledger,
                now,
            )[k]).index as int] != id,
{
    lemma_eligible_from_excludes(p, ids, ledger, now, 0, id);
    match p.mode {
        DownloadMode::Backlog { .. } => {},
        DownloadMode::Standard { .. } => {
            let base = eligible_from(p, ids, ledger, now, 0);
            assert forall|k: int| 0 <= k < pending_spec(p, ids, ledger, now).len() implies ids[(
            #[trigger] pending_spec(p, ids, ledger, now)[k]).index as int] != id by {
                assert(base.reverse()[k] == base[base.len() - 1 - k]);
            }
        },
    }
}

/// Run idempotence, end to end: once a well-formed line carrying an
/// episode's computed id has been appended to the ledger file — on top of
/// any earlier content, with any number of duplicate lines among it — a
/// run that parses that file and selects against it never queues an
/// episode with that computed id again.
pub proof fn lemma_run_idempotence(
    t: Seq<char>,
    id: Seq<char>,
    timestamp: int,
    title: Seq<char>,
    p: Podcast,
    ids: Seq<Seq<char>>,
    ledger: Ledger,
    now: int,
)
    requires
        t.len() == 0 || t.last() == '\n',
        line_fields_wf(id, title),
        id_views(ledger.ids@) == ledger_text_ids(t.add(ledger_line_spec(id, timestamp, title))),
        podcast_wf(p),
    ensures
        forall|k: int|
            0 <= k < pending_spec(p, ids, ledger, now).len() ==> ids[(#[trigger] pending_spec(
                p,
                ids,
                ledger,
                now,
            )[k]).index as int] != id,
{
    lemma_appended_id_is_recorded(t, id, timestamp, title);
    let parsed = ledger_text_ids(t.add(ledger_line_spec(id, timestamp, title)));
    let j = choose|j: int| 0 <= j < parsed.len() && parsed[j] == id;
    assert(id_views(ledger.ids@)[j] == id);
    assert(ledger.ids@[j]@ == id);
    assert(ledger.contains_id(id));
    lemma_ledger_idempotence(p, ids, ledger, now, id);
}

/// Every due episode from position `i` on sits at its own index, at or
/// after `i`.
proof fn lemma_eligible_from_indices(
    p: Podcast,
    ids: Seq<Seq<char>>,
    ledger: Ledger,
    now: int,
    i: int,
)
    requires
        podcast_wf(p),
        i >= 0,
    ensures
        forall|k: int|
            0 <= k < eligible_from(p, ids, ledger, now, i).len() ==> (#[trigger] eligible_from(
                p,
                ids,
                ledger,
                now,
                i,
            )[k]).index >= i,
    decreases p.episodes@.len() - i,
{
    if 0 <= i < p.episodes@.len() {
        lemma_eligible_from_indices(p, ids, ledger, now, i + 1);
    }
}

/// The due episodes from position `i` on come in strictly ascending index
/// order.
proof fn lemma_eligible_from_sorted(
    p: Podcast,
    ids: Seq<Seq<char>>,
    ledger: Ledger,
    now: int,
    i: int,
)
    requires
        podcast_wf(p),
        i >= 0,
    ensures
        forall|k1: int, k2: int|
            0 <= k1 < k2 < eligible_from(p, ids, ledger, now, i).len() ==> (
            #[trigger] eligible_from(p, ids, ledger, now, i)[k1]).index < (
            #[trigger] eligible_from(p, ids, ledger, now, i)[k2]).index,
    decreases p.episodes@.len() - i,
{
    if 0 <= i < p.episodes@.len() {
        lemma_eligible_from_sorted(p, ids, ledger, now, i + 1);
        lemma_eligible_from_indices(p, ids, ledger, now, i + 1);
    }
}

/// Queue order: a backlog subscription downloads its due episodes in
/// strictly ascending index order — oldest unlocked first — and a standard
/// subscription in strictly descending index order — newest first.
pub proof fn lemma_queue_order(p: Podcast, ids: Seq<Seq<char>>, ledger: Ledger, now: int)
    requires
        podcast_wf(p),
    ensures
        p.mode is Backlog ==> forall|k1: int, k2: int|
            0 <= k1 < k2 < pending_spec(p, ids, ledger, now).len() ==> (#[trigger] pending_spec(
                p,
                ids,
                ledger,
                now,
            )[k1]).index < (#[trigger] pending_spec(p, ids, ledger, now)[k2]).index,
        p.mode is Standard ==> forall|k1: int, k2: int|
            0 <= k1 < k2 < pending_spec(p, ids, ledger, now).len() ==> (#[trigger] pending_spec(
                p,
                ids,
                ledger,
                now,
            )[k1]).index > (#[trigger] pending_spec(p, ids, ledger, now)[k2]).index,
{
    lemma_eligible_from_sorted(p, ids, ledger, now, 0);
    let base = eligible_from(p, ids, ledger, now, 0);
    match p.mode {
        DownloadMode::Backlog { .. } => {},
        DownloadMode::Standard { .. } => {
            assert forall|k1: int, k2: int|
                0 <= k1 < k2 < pending_spec(p, ids, ledger, now).len() implies (
            #[trigger] pending_spec(p, ids, ledger, now)[k1]).index > (#[trigger] pending_spec(
                p,
                ids,
                ledger,
                now,
            )[k2]).index by {
                assert(base.reverse()[k1] == base[base.len() - 1 - k1]);
                assert(base.reverse()[k2] == base[base.len() - 1 - k2]);
            }
        },
    }
}

impl Podcast {
    /// Wraps a sorted episode list and a release mode.
    pub fn new(episodes: Vec<Episode>, mode: DownloadMode) -> (r: Podcast)
        requires
            mode_wf(mode),
            forall|i: int| 0 <= i < episodes@.len() ==> (#[trigger] episodes@[i]).index == i,
        ensures
            r.episodes@ == episodes@,
            r.mode == mode,
            podcast_wf(r),
    {
        Podcast { episodes, mode }
    }

    /// The episodes currently due, in download order, as `pending_spec`
    /// describes; `ids` carries each episode's computed ledger id by
    /// position, and no queued episode's computed id is ledgered.
    pub fn pending_episodes<'a>(&'a self, now: i64, ledger: &Ledger, ids: &Vec<String>) -> (r: Vec<
        &'a Episode,
    >)
        requires
            podcast_wf(*self),
            ids@.len() == self.episodes@.len(),
        ensures
            r@.map_values(|e: &Episode| *e) == pending_spec(
                *self,
                id_views(ids@),
                *ledger,
                now as int,
            ),
            forall|k: int|
                0 <= k < r@.len() ==> !ledger.contains_id(
                    id_views(ids@)[(#[trigger] r@[k]).index as int],
                ),
    {
        let qty = self.episodes.len();
        let ghost gids = id_views(ids@);
        let mut picked: Vec<&Episode> = Vec::new();
        let mut i: usize = 0;
        proof {
            assert(eligible_from(*self, gids, *ledger, now as int, 0) =~= picked@.map_values(
                |e: &Episode| *e,
            ).add(eligible_from(*self, gids, *ledger, now as int, 0)));
        }
        while i < qty
            invariant
                qty == self.episodes@.len(),
                podcast_wf(*self),
                gids == id_views(ids@),
                ids@.len() == qty,
                i <= qty,
                eligible_from(*self, gids, *ledger, now as int, 0) == picked@.map_values(
                    |e: &Episode| *e,
                ).add(eligible_from(*self, gids, *ledger, now as int, i as int)),
                forall|k: int|
                    0 <= k < picked@.len() ==> !ledger.contains_id(
                        gids[(#[trigger] picked@[k]).index as int],
                    ),
            decreases qty - i,
        {
            let ghost pre = picked@;
            let ep = &self.episodes[i];
            let ledgered = ledger.contains(ids[i].as_str());
            let admitted = crate::policy::is_mode_eligible(
                &self.mode,
                now,
                ep.attrs.published,
                ep.index,
                qty - 1,
            );
            if !ledgered && admitted {
                picked.push(ep);
                proof {
                    assert(picked@.map_values(|e: &Episode| *e) =~= pre.map_values(
                        |e: &Episode| *e,
                    ).push(self.episodes@[i as int]));
                    assert(seq![self.episodes@[i as int]].add(
                        eligible_from(*self, gids, *ledger, now as int, i + 1),
                    ) =~= eligible_from(*self, gids, *ledger, now as int, i as int));
                    assert(pre.map_values(|e: &Episode| *e).push(self.episodes@[i as int]).add(
                        eligible_from(*self, gids, *ledger, now as int, i + 1),
                    ) =~= pre.map_values(|e: &Episode| *e).add(
                        eligible_from(*self, gids, *ledger, now as int, i as int),
                    ));
                }
            } else {
                proof {
                    assert(!episode_due(
                        *self,
                        *ledger,
                        now as int,
                        self.episodes@[i as int],
                        gids[i as int],
                    ));
                }
            }
            i = i + 1;
        }
        proof {
            assert(eligible_from(*self, gids, *ledger, now as int, qty as int) =~= Seq::<
                Episode,
            >::empty());
            assert(picked@.map_values(|e: &Episode| *e).add(Seq::<Episode>::empty()) =~= picked@
                .map_values(|e: &Episode| *e));
        }
        match self.mode {
            DownloadMode::Backlog { .. } => picked,
            DownloadMode::Standard { .. } => {
                let mut rev: Vec<&Episode> = Vec::new();
                let mut k = picked.len();
                while k > 0
                    invariant
                        k <= picked@.len(),
                        rev@.len() == picked@.len() - k,
                        forall|j: int|
                            0 <= j < rev@.len() ==> rev@[j] == picked@[picked@.len() - 1 - j],
                    decreases k,
                {
                    k = k - 1;
                    rev.push(picked[k]);
                }
                proof {
                    assert(rev@.map_values(|e: &Episode| *e) =~= picked@.map_values(
                        |e: &Episode| *e,
                    ).reverse());
                }
                rev
            },
        }
    }
}

} // verus!
