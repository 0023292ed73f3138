use crate::completion_item::{CompletionItem, Completions, ItemModel};
use crate::cursor::Cursor;
use crate::matcher::{
    lemma_common_prefix_len, matched_bytes_of, matched_prefix_of,
};
use vstd::prelude::*;

verus! {

/// Identity and configuration of one completion provider, as handed to the
/// setup step by the configuration collaborator.
#[derive(Clone, Copy, Debug)]
pub struct SourceConfig {
    /// The name of the provider.
    pub name: &'static str,
    /// Whether the user enabled the provider.
    pub enabled: bool,
}

/// Why a provider configuration was rejected at setup time. Reported once at
/// setup; a rejected provider never receives requests.
#[derive(Clone, Copy, Debug)]
pub enum ValidationError {
    /// The provider has an empty name, so its candidates could not be
    /// attributed to it.
    UnnamedSource,
}

/// A single source's `fetch` failed at request time (the provider crashed,
/// broke its protocol, or timed itself out). The aggregator swallows it as
/// an empty contribution; it never aborts the sibling fetches and is never
/// raised to the user interface.
#[derive(Debug)]
pub struct SourceError {
    /// The name of the failing source.
    pub source: &'static str,
    /// A description of the failure, fit for a diagnostics log.
    pub message: String,
}

/// Zero sources are enabled: a configuration-time terminal condition,
/// reported once at setup. A session with no sources never enters the
/// request-handling state.
#[derive(Clone, Copy, Debug)]
pub struct EmptyRegistry;

/// One enabled provider held by the registry. The adapter owns the provider
/// identity; the provider's own state (for instance a connection to an
/// external process) lives with the host-side adapter that runs `fetch`, and
/// its outcome is handed back to [`Sources::collect`] as a plain value.
#[derive(Clone, Copy, Debug)]
pub struct CompletionSource {
    /// The name of the owning provider, stamped on every candidate.
    pub name: &'static str,
}

/// A candidate re-stamped with the identity of the source that hands it
/// out; everything else is kept.
pub open spec fn attributed(name: Seq<char>, item: ItemModel) -> ItemModel {
    ItemModel {
        details: item.details,
        format_bytes: item.format_bytes,
        matched_prefix: item.matched_prefix,
        matched_bytes: item.matched_bytes,
        source: name,
        text_bytes: item.text_bytes,
    }
}

/// The models of a list of candidates re-stamped with one source identity,
/// in their original order.
pub open spec fn attributed_all(name: Seq<char>, items: Seq<CompletionItem>) -> Seq<ItemModel> {
    Seq::new(items.len(), |i: int| attributed(name, items[i]@))
}

impl CompletionSource {
    /// The normalization guarantee of the adapter: every candidate a source
    /// hands out carries that source's identity, whatever the provider put
    /// there. The host adapter runs this over each successful fetch before
    /// handing the outcome to the aggregator.
    pub fn attribute(&self, items: Completions) -> (r: Completions)
        ensures
            models_of(r@) == attributed_all(self.name@, items@),
    {
        let ghost all = items@;
        let mut rest = items;
        let mut out: Completions = Vec::new();
        proof {
            assert(rest@ =~= all.skip(0));
            assert(models_of(out@) =~= attributed_all(self.name@, all.take(0)));
        }
        while rest.len() > 0
            invariant
                rest@.len() <= all.len(),
                rest@ == all.skip(all.len() - rest@.len()),
                models_of(out@) == attributed_all(
                    self.name@,
                    all.take(all.len() - rest@.len()),
                ),
            decreases rest@.len(),
        {
            let ghost j = all.len() - rest@.len();
            let it = rest.remove(0);
            proof {
                assert(all.skip(j)[0] == all[j]);
                assert(it == all[j]);
                assert(all.skip(j).remove(0) =~= all.skip(j + 1));
            }
            let ghost it_model = it@;
            let item = CompletionItem {
                details: it.details,
                format: it.format,
                matched_prefix: it.matched_prefix,
                matched_bytes: it.matched_bytes,
                source: self.name,
                text: it.text,
            };
            proof {
                assert(item@ =~= attributed(self.name@, it_model));
            }
            let ghost out_entry = out@;
            out.push(item);
            proof {
                assert(models_of(out@) =~= models_of(out_entry).push(item@));
                assert(attributed_all(self.name@, all.take(j + 1)) =~= attributed_all(
                    self.name@,
                    all.take(j),
                ).push(attributed(self.name@, all[j]@)));
                assert(models_of(out@) =~= attributed_all(self.name@, all.take(j + 1)));
            }
        }
        proof {
            assert(all.take(all.len() as int) =~= all);
        }
        out
    }
}

/// A provider configuration passes validation exactly when its name is
/// non-empty. Pure: no I/O, no mutation.
pub fn validate(config: &SourceConfig) -> (r: Result<(), ValidationError>)
    ensures
        r is Ok <==> config.name@.len() > 0,
{
    if config.name.is_empty() {
        Err(ValidationError::UnnamedSource)
    } else {
        Ok(())
    }
}

/// A configuration joins the registry when it passes validation and the
/// user enabled it.
pub open spec fn spec_admitted(config: SourceConfig) -> bool {
    config.name@.len() > 0 && config.enabled
}

/// The sources the registry is built of: one per admitted configuration, in
/// configuration order.
pub open spec fn admitted_sources(configs: Seq<SourceConfig>) -> Seq<CompletionSource>
    decreases configs.len(),
{
    if configs.len() == 0 {
        Seq::empty()
    } else {
        let rest = admitted_sources(configs.drop_last());
        if spec_admitted(configs.last()) {
            rest.push(CompletionSource { name: configs.last().name })
        } else {
            rest
        }
    }
}

/// Ordered registry of the enabled completion sources. Insertion order is
/// configuration order and serves as the deterministic tie-break when
/// candidates match equally many bytes. Built once at setup; read-only
/// during request handling.
#[derive(Debug)]
pub struct Sources {
    /// The registered sources, in configuration order.
    pub sources: Vec<CompletionSource>,
}

impl Sources {
    /// Non-empty when accepting requests: an empty registry is refused at
    /// setup as [`EmptyRegistry`], never discovered at request time.
    pub open spec fn wf(&self) -> bool {
        self.sources@.len() > 0
    }

    /// Builds the registry from the provider configurations, keeping every
    /// valid and enabled one in configuration order, and reports
    /// [`EmptyRegistry`] when none is admitted.
    pub fn from_configs(configs: &Vec<SourceConfig>) -> (r: Result<Sources, EmptyRegistry>)
        ensures
            r matches Ok(s) ==> s.sources@ == admitted_sources(configs@) && s.wf(),
            r is Err <==> admitted_sources(configs@).len() == 0,
    {
        let mut sources: Vec<CompletionSource> = Vec::new();
        let mut i: usize = 0;
        while i < configs.len()
            invariant
                0 <= i <= configs@.len(),
                sources@ == admitted_sources(configs@.take(i as int)),
            decreases configs@.len() - i,
        {
            let config = configs[i];
            let admitted = match validate(&config) {
                Ok(()) => config.enabled,
                Err(_) => false,
            };
            if admitted {
                sources.push(CompletionSource { name: config.name });
            }
            proof {
                let taken = configs@.take(i + 1);
                assert(taken.drop_last() =~= configs@.take(i as int));
                assert(taken.last() == configs@[i as int]);
            }
            i = i + 1;
        }
        proof {
            assert(configs@.take(configs@.len() as int) =~= configs@);
        }
        if sources.is_empty() {
            Err(EmptyRegistry)
        } else {
            Ok(Sources { sources })
        }
    }

    /// How many sources are registered.
    pub fn len(&self) -> (n: usize)
        ensures
            n == self.sources@.len(),
    {
        self.sources.len()
    }

    /// The name of the source at the given registry position.
    pub fn name_of(&self, i: usize) -> (name: &'static str)
        requires
            i < self.sources@.len(),
        ensures
            name == self.sources@[i as int].name,
    {
        self.sources[i].name
    }
}

/// The models of a list of completion items, in order.
pub open spec fn models_of(items: Seq<CompletionItem>) -> Seq<ItemModel> {
    Seq::new(items.len(), |i: int| items[i]@)
}

/// One raw candidate after the matcher ran over it with the typed prefix:
/// the matching metadata is recomputed, everything else is kept.
pub open spec fn rematched(prefix: Seq<u8>, item: ItemModel) -> ItemModel {
    ItemModel {
        details: item.details,
        format_bytes: item.format_bytes,
        matched_prefix: matched_prefix_of(prefix, item.text_bytes) as u16,
        matched_bytes: matched_bytes_of(prefix, item.text_bytes, item.format_bytes),
        source: item.source,
        text_bytes: item.text_bytes,
    }
}

/// The models of a list of raw candidates with the matcher run over each,
/// in their original order.
pub open spec fn item_contribution(prefix: Seq<u8>, items: Seq<CompletionItem>) -> Seq<ItemModel> {
    Seq::new(items.len(), |i: int| rematched(prefix, items[i]@))
}

/// What one source's outcome contributes to the merged list: a failed
/// source contributes nothing; a successful one contributes its items, in
/// their original order, with the matcher run over each.
pub open spec fn outcome_contribution(
    prefix: Seq<u8>,
    outcome: Result<Completions, SourceError>,
) -> Seq<ItemModel> {
    match outcome {
        Ok(items) => item_contribution(prefix, items@),
        Err(_) => Seq::empty(),
    }
}

/// The contributions of all sources, concatenated in registry order: the
/// merged list before ranking.
pub open spec fn merged_models(
    prefix: Seq<u8>,
    outcomes: Seq<Result<Completions, SourceError>>,
) -> Seq<ItemModel>
    decreases outcomes.len(),
{
    if outcomes.len() == 0 {
        Seq::empty()
    } else {
        merged_models(prefix, outcomes.drop_last()) + outcome_contribution(prefix, outcomes.last())
    }
}

/// The ranking order of the final list: `matched_prefix` descending.
pub open spec fn sorted_desc(s: Seq<ItemModel>) -> bool {
    forall|i: int, j: int|
        0 <= i < j < s.len() ==> (#[trigger] s[i]).matched_prefix >= (#[trigger] s[j]).matched_prefix
}

/// The items of `s` whose match length is exactly `k`, in their order.
pub open spec fn with_key(s: Seq<ItemModel>, k: u16) -> Seq<ItemModel> {
    s.filter(|m: ItemModel| m.matched_prefix == k)
}

/// Stable insertion: `x` goes after no at-least-as-long match and before
/// the first strictly shorter one, so that on ties the earlier item wins.
pub open spec fn insert_desc(x: ItemModel, s: Seq<ItemModel>) -> Seq<ItemModel>
    decreases s.len(),
{
    if s.len() == 0 {
        seq![x]
    } else if x.matched_prefix >= s[0].matched_prefix {
        seq![x] + s
    } else {
        seq![s[0]] + insert_desc(x, s.drop_first())
    }
}

/// Stable insertion sort of the merged candidates by `matched_prefix`
/// descending: ties keep their pre-sort order.
pub open spec fn sort_desc(s: Seq<ItemModel>) -> Seq<ItemModel>
    decreases s.len(),
{
    if s.len() == 0 {
        Seq::empty()
    } else {
        insert_desc(s[0], sort_desc(s.drop_first()))
    }
}

proof fn lemma_with_key_empty(k: u16)
    ensures
        with_key(Seq::empty(), k) == Seq::<ItemModel>::empty(),
{
    reveal(Seq::filter);
}

proof fn lemma_with_key_push(s: Seq<ItemModel>, x: ItemModel, k: u16)
    ensures
        with_key(s.push(x), k) == with_key(s, k) + (if x.matched_prefix == k {
            seq![x]
        } else {
            Seq::<ItemModel>::empty()
        }),
{
    reveal(Seq::filter);
    assert(s.push(x).drop_last() =~= s);
    assert(s.push(x).last() == x);
    if x.matched_prefix == k {
        assert(with_key(s.push(x), k) =~= with_key(s, k) + seq![x]);
    } else {
        assert(with_key(s.push(x), k) =~= with_key(s, k) + Seq::<ItemModel>::empty());
    }
}

proof fn lemma_with_key_concat(a: Seq<ItemModel>, b: Seq<ItemModel>, k: u16)
    ensures
        with_key(a + b, k) == with_key(a, k) + with_key(b, k),
    decreases b.len(),
{
    if b.len() == 0 {
        assert(a + b =~= a);
        lemma_with_key_empty(k);
        assert(with_key(b, k) =~= Seq::<ItemModel>::empty());
        assert(with_key(a, k) + with_key(b, k) =~= with_key(a, k));
    } else {
        lemma_with_key_concat(a, b.drop_last(), k);
        lemma_with_key_push(a + b.drop_last(), b.last(), k);
        lemma_with_key_push(b.drop_last(), b.last(), k);
        assert((a + b.drop_last()).push(b.last()) =~= a + b);
        assert(b.drop_last().push(b.last()) =~= b);
        if b.last().matched_prefix == k {
            assert((with_key(a, k) + with_key(b.drop_last(), k)) + seq![b.last()] =~= with_key(a, k)
                + (with_key(b.drop_last(), k) + seq![b.last()]));
        } else {
            assert((with_key(a, k) + with_key(b.drop_last(), k)) + Seq::<ItemModel>::empty()
                =~= with_key(a, k) + (with_key(b.drop_last(), k) + Seq::<ItemModel>::empty()));
        }
    }
}

proof fn lemma_with_key_singleton(x: ItemModel, k: u16)
    ensures
        with_key(seq![x], k) == (if x.matched_prefix == k {
            seq![x]
        } else {
            Seq::<ItemModel>::empty()
        }),
{
    reveal_with_fuel(Seq::filter, 2);
    assert(seq![x].drop_last() =~= Seq::<ItemModel>::empty());
    assert(seq![x].last() == x);
    if x.matched_prefix == k {
        assert(with_key(seq![x], k) =~= seq![x]);
    } else {
        assert(with_key(seq![x], k) =~= Seq::<ItemModel>::empty());
    }
}

/// An insertion holds the inserted item and the originals, nothing else.
proof fn lemma_insert_desc_elems(x: ItemModel, s: Seq<ItemModel>)
    ensures
        insert_desc(x, s).len() == s.len() + 1,
        forall|i: int|
            0 <= i < insert_desc(x, s).len() ==> (#[trigger] insert_desc(x, s)[i]) == x
                || s.contains(insert_desc(x, s)[i]),
    decreases s.len(),
{
    if s.len() == 0 {
    } else if x.matched_prefix >= s[0].matched_prefix {
        let r = seq![x] + s;
        assert forall|i: int| 0 <= i < r.len() implies (#[trigger] r[i]) == x || s.contains(
            r[i],
        ) by {
            if i >= 1 {
                assert(r[i] == s[i - 1]);
                assert(s.contains(s[i - 1]));
            }
        }
    } else {
        lemma_insert_desc_elems(x, s.drop_first());
        let t = insert_desc(x, s.drop_first());
        let r = seq![s[0]] + t;
        assert forall|i: int| 0 <= i < r.len() implies (#[trigger] r[i]) == x || s.contains(
            r[i],
        ) by {
            if i == 0 {
                assert(r[0] == s[0]);
                assert(s.contains(s[0]));
            } else {
                assert(r[i] == t[i - 1]);
                if t[i - 1] != x {
                    assert(s.drop_first().contains(t[i - 1]));
                    let w = choose|w: int|
                        0 <= w < s.drop_first().len() && s.drop_first()[w] == t[i - 1];
                    assert(s[w + 1] == t[i - 1]);
                    assert(s.contains(s[w + 1]));
                }
            }
        }
    }
}

/// Inserting into a sorted list keeps it sorted.
proof fn lemma_insert_desc_sorted(x: ItemModel, s: Seq<ItemModel>)
    requires
        sorted_desc(s),
    ensures
        sorted_desc(insert_desc(x, s)),
    decreases s.len(),
{
    if s.len() == 0 {
    } else if x.matched_prefix >= s[0].matched_prefix {
        let r = seq![x] + s;
        assert forall|i: int, j: int| 0 <= i < j < r.len() implies (#[trigger] r[i]).matched_prefix
            >= (#[trigger] r[j]).matched_prefix by {
            if i == 0 {
                assert(r[j] == s[j - 1]);
                if j - 1 > 0 {
                    assert(s[0].matched_prefix >= s[j - 1].matched_prefix);
                }
            } else {
                assert(r[i] == s[i - 1]);
                assert(r[j] == s[j - 1]);
            }
        }
    } else {
        let tail = s.drop_first();
        assert forall|i: int, j: int| 0 <= i < j < tail.len() implies (#[trigger] tail[i]).matched_prefix
            >= (#[trigger] tail[j]).matched_prefix by {
            assert(tail[i] == s[i + 1]);
            assert(tail[j] == s[j + 1]);
        }
        lemma_insert_desc_sorted(x, tail);
        lemma_insert_desc_elems(x, tail);
        let t = insert_desc(x, tail);
        let r = seq![s[0]] + t;
        assert forall|i: int, j: int| 0 <= i < j < r.len() implies (#[trigger] r[i]).matched_prefix
            >= (#[trigger] r[j]).matched_prefix by {
            if i == 0 {
                assert(r[j] == t[j - 1]);
                if t[j - 1] != x {
                    assert(tail.contains(t[j - 1]));
                    let w = choose|w: int| 0 <= w < tail.len() && tail[w] == t[j - 1];
                    assert(s[w + 1] == t[j - 1]);
                    assert(s[0].matched_prefix >= s[w + 1].matched_prefix);
                }
            } else {
                assert(r[i] == t[i - 1]);
                assert(r[j] == t[j - 1]);
            }
        }
    }
}

/// The insertion lands exactly at the scan position: after the strictly
/// longer matches, before the rest.
proof fn lemma_insert_desc_at(x: ItemModel, s: Seq<ItemModel>, p: int)
    requires
        0 <= p <= s.len(),
        forall|q: int| 0 <= q < p ==> x.matched_prefix < (#[trigger] s[q]).matched_prefix,
        p < s.len() ==> x.matched_prefix >= s[p].matched_prefix,
    ensures
        insert_desc(x, s) == s.take(p) + seq![x] + s.skip(p),
    decreases p,
{
    if s.len() == 0 || p == 0 {
        assert(insert_desc(x, s) =~= s.take(p) + seq![x] + s.skip(p));
    } else {
        let tail = s.drop_first();
        lemma_insert_desc_at(x, tail, p - 1);
        assert(seq![s[0]] + (tail.take(p - 1) + seq![x] + tail.skip(p - 1)) =~= s.take(p)
            + seq![x] + s.skip(p));
    }
}

/// Insertion through `with_key`: the inserted item lands in front of every
/// tie already present (those stem from later positions); other match
/// lengths are untouched.
proof fn lemma_insert_desc_with_key(x: ItemModel, s: Seq<ItemModel>, k: u16)
    ensures
        with_key(insert_desc(x, s), k) == (if x.matched_prefix == k {
            seq![x] + with_key(s, k)
        } else {
            with_key(s, k)
        }),
    decreases s.len(),
{
    if s.len() == 0 {
        lemma_with_key_singleton(x, k);
        lemma_with_key_empty(k);
        if x.matched_prefix == k {
            assert(seq![x] =~= seq![x] + with_key(s, k));
        }
    } else if x.matched_prefix >= s[0].matched_prefix {
        lemma_with_key_concat(seq![x], s, k);
        lemma_with_key_singleton(x, k);
        if x.matched_prefix != k {
            assert(Seq::<ItemModel>::empty() + with_key(s, k) =~= with_key(s, k));
        }
    } else {
        let tail = s.drop_first();
        lemma_insert_desc_with_key(x, tail, k);
        lemma_with_key_concat(seq![s[0]], insert_desc(x, tail), k);
        lemma_with_key_singleton(s[0], k);
        lemma_with_key_concat(seq![s[0]], tail, k);
        assert(seq![s[0]] + tail =~= s);
        if x.matched_prefix == k {
            // x matches strictly fewer bytes than s[0], so s[0] is no tie
            assert(s[0].matched_prefix != k);
            assert(Seq::<ItemModel>::empty() + (seq![x] + with_key(tail, k)) =~= seq![x] + (
            Seq::<ItemModel>::empty() + with_key(tail, k)));
        } else {
            if s[0].matched_prefix == k {
                assert(seq![s[0]] + with_key(tail, k) =~= with_key(s, k));
            } else {
                assert(Seq::<ItemModel>::empty() + with_key(tail, k) =~= with_key(s, k));
            }
        }
    }
}

/// Ordering law of the merge: the ranked list is sorted by
/// `matched_prefix` descending.
pub proof fn lemma_sort_desc_sorted(s: Seq<ItemModel>)
    ensures
        sorted_desc(sort_desc(s)),
    decreases s.len(),
{
    if s.len() > 0 {
        lemma_sort_desc_sorted(s.drop_first());
        lemma_insert_desc_sorted(s[0], sort_desc(s.drop_first()));
    }
}

/// Stability law of the merge: for every match length, the ranked
/// list keeps the candidates of that length in their pre-sort order — which
/// is registry order, then per-source order.
pub proof fn lemma_sort_desc_stable(s: Seq<ItemModel>, k: u16)
    ensures
        with_key(sort_desc(s), k) == with_key(s, k),
    decreases s.len(),
{
    if s.len() == 0 {
        lemma_with_key_empty(k);
    } else {
        lemma_sort_desc_stable(s.drop_first(), k);
        lemma_insert_desc_with_key(s[0], sort_desc(s.drop_first()), k);
        lemma_with_key_concat(seq![s[0]], s.drop_first(), k);
        lemma_with_key_singleton(s[0], k);
        assert(seq![s[0]] + s.drop_first() =~= s);
        if s[0].matched_prefix != k {
            assert(Seq::<ItemModel>::empty() + with_key(s.drop_first(), k) =~= with_key(
                s.drop_first(),
                k,
            ));
        }
    }
}

/// A pointwise property of the merged list survives the ranking.
pub proof fn lemma_sort_desc_preserves(s: Seq<ItemModel>, property: spec_fn(ItemModel) -> bool)
    requires
        forall|i: int| 0 <= i < s.len() ==> property(#[trigger] s[i]),
    ensures
        sort_desc(s).len() == s.len(),
        forall|i: int| 0 <= i < sort_desc(s).len() ==> property(#[trigger] sort_desc(s)[i]),
    decreases s.len(),
{
    if s.len() > 0 {
        let tail = s.drop_first();
        assert forall|i: int| 0 <= i < tail.len() implies property(#[trigger] tail[i]) by {
            assert(tail[i] == s[i + 1]);
        }
        lemma_sort_desc_preserves(tail, property);
        lemma_insert_desc_elems(s[0], sort_desc(tail));
        let r = insert_desc(s[0], sort_desc(tail));
        assert forall|i: int| 0 <= i < r.len() implies property(#[trigger] r[i]) by {
            if r[i] != s[0] {
                assert(sort_desc(tail).contains(r[i]));
                let w = choose|w: int| 0 <= w < sort_desc(tail).len() && sort_desc(tail)[w] == r[i];
                assert(property(sort_desc(tail)[w]));
            }
        }
    }
}

/// Failure isolation: one source's failure costs only its own
/// candidates — the merged list equals the one with that source's outcome
/// removed entirely.
pub proof fn lemma_failed_source_isolated(
    prefix: Seq<u8>,
    outcomes: Seq<Result<Completions, SourceError>>,
    j: int,
)
    requires
        0 <= j < outcomes.len(),
        outcomes[j] is Err,
    ensures
        merged_models(prefix, outcomes.remove(j)) == merged_models(prefix, outcomes),
    decreases outcomes.len(),
{
    if j == outcomes.len() - 1 {
        assert(outcomes.remove(j) =~= outcomes.drop_last());
        assert(merged_models(prefix, outcomes) =~= merged_models(prefix, outcomes.drop_last()));
    } else {
        assert(outcomes.drop_last()[j] == outcomes[j]);
        lemma_failed_source_isolated(prefix, outcomes.drop_last(), j);
        assert(outcomes.remove(j).drop_last() =~= outcomes.drop_last().remove(j));
        assert(outcomes.remove(j).last() == outcomes.last());
    }
}

/// Stable insertion sort of the merged candidates by `matched_prefix`
/// descending; ties keep their original order.
fn sort_completions(items: Completions) -> (r: Completions)
    ensures
        models_of(r@) == sort_desc(models_of(items@)),
{
    let ghost all = models_of(items@);
    let mut rest = items;
    let mut sorted: Completions = Vec::new();
    proof {
        assert(models_of(rest@) =~= all.take(rest@.len() as int));
        assert(models_of(sorted@) =~= sort_desc(all.skip(rest@.len() as int)));
    }
    while rest.len() > 0
        invariant
            rest@.len() <= all.len(),
            models_of(rest@) == all.take(rest@.len() as int),
            models_of(sorted@) == sort_desc(all.skip(rest@.len() as int)),
        decreases rest@.len(),
    {
        let ghost pre_rest = rest@;
        let x = rest.pop().unwrap();
        let ghost j = rest@.len() as int;
        proof {
            assert(models_of(pre_rest)[j] == x@);
            assert(all.take(j + 1)[j] == all[j]);
            assert(models_of(rest@) =~= all.take(j));
        }
        let mut p: usize = 0;
        while p < sorted.len() && x.matched_prefix < sorted[p].matched_prefix
            invariant
                0 <= p <= sorted@.len(),
                forall|q: int|
                    0 <= q < p ==> x.matched_prefix < (#[trigger] sorted@[q]).matched_prefix,
            decreases sorted@.len() - p,
        {
            p = p + 1;
        }
        let ghost pre_sorted = models_of(sorted@);
        proof {
            assert forall|q: int| 0 <= q < p implies x@.matched_prefix < (#[trigger] pre_sorted[
                q
            ]).matched_prefix by {
                assert(pre_sorted[q] == sorted@[q]@);
            }
            if (p as int) < pre_sorted.len() {
                assert(pre_sorted[p as int] == sorted@[p as int]@);
            }
        }
        sorted.insert(p, x);
        proof {
            lemma_insert_desc_at(x@, pre_sorted, p as int);
            assert(models_of(sorted@) =~= pre_sorted.take(p as int) + seq![x@] + pre_sorted.skip(
                p as int,
            ));
            assert(all.skip(j)[0] == all[j]);
            assert(all.skip(j).drop_first() =~= all.skip(j + 1));
            assert(models_of(sorted@) == sort_desc(all.skip(j)));
        }
    }
    proof {
        assert(all.skip(0) =~= all);
    }
    sorted
}

impl Sources {
    /// Fan-in of one request: takes the per-source outcomes of the
    /// host-side fan-out, in registry order; runs the matcher over every
    /// item of every successful outcome against the cursor's typed word;
    /// swallows failed outcomes as empty contributions; and ranks the
    /// merged list by `matched_prefix` descending, ties in registry order
    /// and then in per-source order. Total: a request over failing sources
    /// simply yields fewer candidates, never an error.
    pub fn collect(
        &self,
        cursor: &Cursor,
        continuation: &Vec<u8>,
        outcomes: Vec<Result<Completions, SourceError>>,
    ) -> (r: Completions)
        requires
            cursor.wf(),
            cursor.byte_offset <= u16::MAX,
            outcomes@.len() == self.sources@.len(),
        ensures
            models_of(r@) == sort_desc(
                merged_models(cursor.spec_word_prefix(continuation@), outcomes@),
            ),
            sorted_desc(models_of(r@)),
            forall|i: int| 0 <= i < r@.len() ==> (#[trigger] r@[i]@).wf(),
    {
        let prefix = cursor.word_prefix(continuation);
        let ghost p = prefix@;
        let ghost all = outcomes@;
        let mut rest = outcomes;
        let mut acc: Completions = Vec::new();
        proof {
            assert(models_of(acc@) =~= merged_models(p, all.take(0)));
            assert(rest@ =~= all.skip(0));
        }
        while rest.len() > 0
            invariant
                p == cursor.spec_word_prefix(continuation@),
                prefix@ == p,
                p.len() <= u16::MAX,
                rest@.len() <= all.len(),
                rest@ == all.skip(all.len() - rest@.len()),
                models_of(acc@) == merged_models(p, all.take(all.len() - rest@.len())),
                forall|i: int| 0 <= i < acc@.len() ==> (#[trigger] acc@[i]@).wf(),
            decreases rest@.len(),
        {
            let ghost k = all.len() - rest@.len();
            let outcome = rest.remove(0);
            proof {
                assert(all.skip(k)[0] == all[k]);
                assert(outcome == all[k]);
                assert(all.skip(k).remove(0) =~= all.skip(k + 1));
            }
            match outcome {
                Ok(items) => {
                    let ghost items_all = items@;
                    let mut items_rest = items;
                    proof {
                        assert(items_rest@ =~= items_all.skip(0));
                        assert(item_contribution(p, items_all.take(0))
                            =~= Seq::<ItemModel>::empty());
                        assert(models_of(acc@) =~= merged_models(p, all.take(k))
                            + item_contribution(p, items_all.take(0)));
                    }
                    while items_rest.len() > 0
                        invariant
                            prefix@ == p,
                            p.len() <= u16::MAX,
                            items_rest@.len() <= items_all.len(),
                            items_rest@ == items_all.skip(items_all.len() - items_rest@.len()),
                            models_of(acc@) == merged_models(p, all.take(k)) + item_contribution(
                                p,
                                items_all.take(items_all.len() - items_rest@.len()),
                            ),
                            forall|i: int| 0 <= i < acc@.len() ==> (#[trigger] acc@[i]@).wf(),
                        decreases items_rest@.len(),
                    {
                        let ghost jj = items_all.len() - items_rest@.len();
                        let it = items_rest.remove(0);
                        let ghost it_model = it@;
                        proof {
                            assert(items_all.skip(jj)[0] == items_all[jj]);
                            assert(it_model == items_all[jj]@);
                            assert(items_all.skip(jj).remove(0) =~= items_all.skip(jj + 1));
                            lemma_common_prefix_len(p, it_model.text_bytes);
                        }
                        let (mp, mb) = crate::matcher::compute(
                            &prefix,
                            it.text.as_str(),
                            it.format.as_str(),
                        );
                        let item = CompletionItem {
                            details: it.details,
                            format: it.format,
                            matched_prefix: mp,
                            matched_bytes: mb,
                            source: it.source,
                            text: it.text,
                        };
                        proof {
                            assert(item@ =~= rematched(p, it_model));
                        }
                        let ghost acc_entry = acc@;
                        acc.push(item);
                        proof {
                            assert(models_of(acc@) =~= models_of(acc_entry).push(item@));
                            assert(item_contribution(p, items_all.take(jj + 1))
                                =~= item_contribution(p, items_all.take(jj)).push(
                                rematched(p, items_all[jj]@),
                            ));
                            assert((merged_models(p, all.take(k)) + item_contribution(
                                p,
                                items_all.take(jj),
                            )).push(item@) =~= merged_models(p, all.take(k)) + item_contribution(
                                p,
                                items_all.take(jj),
                            ).push(item@));
                            assert(models_of(acc@) =~= merged_models(p, all.take(k))
                                + item_contribution(p, items_all.take(jj + 1)));
                        }
                    }
                    proof {
                        assert(items_all.take(items_all.len() as int) =~= items_all);
                        assert(outcome_contribution(p, all[k]) == item_contribution(p, items_all));
                        assert(all.take(k + 1).drop_last() =~= all.take(k));
                        assert(all.take(k + 1).last() == all[k]);
                        assert(models_of(acc@) == merged_models(p, all.take(k + 1)));
                    }
                },
                Err(_) => {
                    proof {
                        assert(all.take(k + 1).drop_last() =~= all.take(k));
                        assert(all.take(k + 1).last() == all[k]);
                        assert(outcome_contribution(p, all[k]) =~= Seq::<ItemModel>::empty());
                        assert(models_of(acc@) =~= merged_models(p, all.take(k + 1)));
                    }
                },
            }
        }
        proof {
            assert(all.take(all.len() as int) =~= all);
        }
        let ghost acc_models = models_of(acc@);
        let r = sort_completions(acc);
        proof {
            lemma_sort_desc_sorted(merged_models(p, all));
            assert forall|i: int| 0 <= i < acc_models.len() implies (|m: ItemModel| m.wf())(
                #[trigger] acc_models[i],
            ) by {}
            lemma_sort_desc_preserves(acc_models, |m: ItemModel| m.wf());
            assert forall|i: int| 0 <= i < r@.len() implies (#[trigger] r@[i]@).wf() by {
                assert(models_of(r@)[i] == r@[i]@);
            }
        }
        r
    }
}

/// With an empty typed prefix, every merged candidate matches zero bytes.
pub proof fn lemma_empty_prefix_merged(
    prefix: Seq<u8>,
    outcomes: Seq<Result<Completions, SourceError>>,
)
    requires
        prefix.len() == 0,
    ensures
        forall|i: int|
            0 <= i < merged_models(prefix, outcomes).len() ==> (#[trigger] merged_models(
                prefix,
                outcomes,
            )[i]).matched_prefix == 0,
    decreases outcomes.len(),
{
    if outcomes.len() > 0 {
        lemma_empty_prefix_merged(prefix, outcomes.drop_last());
    }
}

/// With an empty typed prefix, every candidate of the ranked list matches
/// zero bytes.
pub proof fn lemma_empty_prefix_collect(
    prefix: Seq<u8>,
    outcomes: Seq<Result<Completions, SourceError>>,
)
    requires
        prefix.len() == 0,
    ensures
        forall|i: int|
            0 <= i < sort_desc(merged_models(prefix, outcomes)).len() ==> (#[trigger] sort_desc(
                merged_models(prefix, outcomes),
            )[i]).matched_prefix == 0,
{
    lemma_empty_prefix_merged(prefix, outcomes);
    lemma_sort_desc_preserves(
        merged_models(prefix, outcomes),
        |m: ItemModel| m.matched_prefix == 0,
    );
}

} // verus!
