//! Per-type merge semantics for layering service specifications.
//!
//! - Scalars (strings, enums, integers, booleans): the overlay wins.
//! - `Option<T>`: an overlay `Some` wins; `None` falls through to the base.
//! - Lists: the base then the overlay, each item kept at its first occurrence.
//! - Maps: merged by key, an overlay key wins.
//!
//! A base spec provides defaults and overlays progressively specialize it.
use vstd::prelude::*;

use crate::json::JsonValue;
use crate::strmap::{insert_all, insert_pair, keys_of, lemma_lookup_insert_all, lookup, Dup, StrMap};
use crate::text::{str_eq, str_views};
use crate::types::backend_overrides::BackendOverrides;
use crate::types::health_check::{opt_probe_same, HealthCheckSpec};
use crate::types::logging::LoggingSpec;
use crate::types::resource_limits::{dup_memory, dup_text, MemorySize, ResourceLimits};
use crate::types::service_spec::{spec_keys_unique, DependencySpec, RestartPolicy, ServiceSpec};
use crate::types::socket_spec::SocketSpec;

verus! {

/// Per-type merge semantics: `overlay` takes precedence over `base` where the
/// type's semantics allow.
pub trait Merge: Sized {
    /// Merges `base` and `overlay` into a new value.
    fn merge(base: &Self, overlay: &Self) -> Self;
}

// ---------------------------------------------------------------------------
// What a merge computes
// ---------------------------------------------------------------------------

/// `items` with every repeat of an earlier item dropped.
pub open spec fn dedup(items: Seq<Seq<char>>) -> Seq<Seq<char>>
    decreases items.len(),
{
    if items.len() == 0 {
        Seq::empty()
    } else {
        let rest = dedup(items.drop_last());
        if rest.contains(items.last()) {
            rest
        } else {
            rest.push(items.last())
        }
    }
}

/// An overlay `Some` wins; `None` falls through to the base.
pub open spec fn merged_opt<A>(base: Option<A>, overlay: Option<A>) -> Option<A> {
    if overlay is Some {
        overlay
    } else {
        base
    }
}

/// The section `sec` of a sectioned map, or no entries.
pub open spec fn section(
    m: Seq<(Seq<char>, Seq<(Seq<char>, Seq<char>)>)>,
    sec: Seq<char>,
) -> Seq<(Seq<char>, Seq<char>)> {
    match lookup(m, sec) {
        Some(e) => e,
        None => Seq::empty(),
    }
}

/// Each section of `over`, in order, stored key by key over the same section of `base`.
pub open spec fn nested_overlay(
    base: Seq<(Seq<char>, Seq<(Seq<char>, Seq<char>)>)>,
    over: Seq<(Seq<char>, Seq<(Seq<char>, Seq<char>)>)>,
) -> Seq<(Seq<char>, Seq<(Seq<char>, Seq<char>)>)>
    decreases over.len(),
{
    if over.len() == 0 {
        base
    } else {
        let acc = nested_overlay(base, over.drop_last());
        let sec = over.last().0;
        insert_pair(acc, sec, insert_all(section(acc, sec), over.last().1))
    }
}

// ---------------------------------------------------------------------------
// Laws of deduplication
// ---------------------------------------------------------------------------

/// Deduplication keeps exactly the items of the list, each once.
pub proof fn lemma_dedup_members(items: Seq<Seq<char>>)
    ensures
        dedup(items).no_duplicates(),
        forall|x: Seq<char>| #[trigger] dedup(items).contains(x) <==> items.contains(x),
    decreases items.len(),
{
    if items.len() > 0 {
        let init = items.drop_last();
        lemma_dedup_members(init);
        let rest = dedup(init);
        assert forall|x: Seq<char>| #[trigger] dedup(items).contains(x) <==> items.contains(x) by {
            if items.contains(x) && x != items.last() {
                let k = choose|k: int| 0 <= k < items.len() && items[k] == x;
                assert(init[k] == x);
                assert(init.contains(x));
            }
            if init.contains(x) {
                let k = choose|k: int| 0 <= k < init.len() && init[k] == x;
                assert(items[k] == x);
            }
            if !rest.contains(items.last()) {
                let d = rest.push(items.last());
                assert(d[rest.len() as int] == items.last());
                if d.contains(x) && x != items.last() {
                    let k = choose|k: int| 0 <= k < d.len() && d[k] == x;
                    assert(rest[k] == x);
                }
                if rest.contains(x) {
                    let k = choose|k: int| 0 <= k < rest.len() && rest[k] == x;
                    assert(d[k] == x);
                }
            }
            assert(items[items.len() - 1] == items.last());
        }
    }
}

/// A list without repeats is its own deduplication.
pub proof fn lemma_dedup_distinct(items: Seq<Seq<char>>)
    requires
        items.no_duplicates(),
    ensures
        dedup(items) == items,
    decreases items.len(),
{
    if items.len() > 0 {
        let init = items.drop_last();
        lemma_dedup_distinct(init);
        if init.contains(items.last()) {
            let k = choose|k: int| 0 <= k < init.len() && init[k] == items.last();
            assert(items[k] == items[items.len() - 1]);
        }
        assert(init.push(items.last()) =~= items);
    }
}

proof fn lemma_dedup_left(x: Seq<Seq<char>>, y: Seq<Seq<char>>)
    ensures
        dedup(dedup(x) + y) == dedup(x + y),
    decreases y.len(),
{
    if y.len() == 0 {
        lemma_dedup_members(x);
        lemma_dedup_distinct(dedup(x));
        assert(dedup(x) + y =~= dedup(x));
        assert(x + y =~= x);
    } else {
        lemma_dedup_left(x, y.drop_last());
        assert((dedup(x) + y).drop_last() =~= dedup(x) + y.drop_last());
        assert((x + y).drop_last() =~= x + y.drop_last());
        assert((dedup(x) + y).last() == y.last());
        assert((x + y).last() == y.last());
    }
}

proof fn lemma_dedup_right(x: Seq<Seq<char>>, y: Seq<Seq<char>>)
    ensures
        dedup(x + dedup(y)) == dedup(x + y),
    decreases y.len(),
{
    if y.len() == 0 {
        assert(dedup(y) =~= y);
    } else {
        let init = y.drop_last();
        let e = y.last();
        lemma_dedup_right(x, init);
        assert((x + y).drop_last() =~= x + init);
        assert((x + y).last() == e);
        lemma_dedup_members(init);
        lemma_dedup_members(x + init);
        if dedup(init).contains(e) {
            assert(init.contains(e));
            let k = choose|k: int| 0 <= k < init.len() && init[k] == e;
            assert((x + init)[x.len() + k] == e);
            assert((x + init).contains(e));
        } else {
            let d = dedup(init).push(e);
            assert((x + d).drop_last() =~= x + dedup(init));
            assert((x + d).last() == e);
        }
    }
}

/// Merging lists is associative: deduplicating the concatenation of a merged pair with
/// a third list gives the same as merging the first list with the merged other two.
pub proof fn lemma_list_merge_associative(a: Seq<Seq<char>>, b: Seq<Seq<char>>, c: Seq<Seq<char>>)
    ensures
        dedup(dedup(a + b) + c) == dedup(a + dedup(b + c)),
{
    lemma_dedup_left(a + b, c);
    lemma_dedup_right(a, b + c);
    assert((a + b) + c =~= a + (b + c));
}

/// Option merging is associative.
pub proof fn lemma_option_merge_associative<A>(a: Option<A>, b: Option<A>, c: Option<A>)
    ensures
        merged_opt(merged_opt(a, b), c) == merged_opt(a, merged_opt(b, c)),
{
}

/// Map merging is associative, key by key: with unique keys in each overlay, a key
/// reads the same in `(a, b)` then `c` as in `a` then `(b, c)`.
pub proof fn lemma_map_merge_associative<V>(
    a: Seq<(Seq<char>, V)>,
    b: Seq<(Seq<char>, V)>,
    c: Seq<(Seq<char>, V)>,
    key: Seq<char>,
)
    requires
        crate::strmap::keys_of(b).no_duplicates(),
        crate::strmap::keys_of(c).no_duplicates(),
        crate::strmap::keys_of(insert_all(b, c)).no_duplicates(),
    ensures
        lookup(insert_all(insert_all(a, b), c), key) == lookup(insert_all(a, insert_all(b, c)), key),
{
    crate::strmap::lemma_lookup_insert_all(insert_all(a, b), c, key);
    crate::strmap::lemma_lookup_insert_all(a, b, key);
    crate::strmap::lemma_lookup_insert_all(a, insert_all(b, c), key);
    crate::strmap::lemma_lookup_insert_all(b, c, key);
}

/// Merging the sections of `over` over `base`: a section of `over` is `over`'s entries
/// stored over the base section; any other section reads as in `base`.
pub proof fn lemma_nested_overlay_lookup(
    base: Seq<(Seq<char>, Seq<(Seq<char>, Seq<char>)>)>,
    over: Seq<(Seq<char>, Seq<(Seq<char>, Seq<char>)>)>,
    sec: Seq<char>,
)
    requires
        crate::strmap::keys_of(over).no_duplicates(),
    ensures
        lookup(nested_overlay(base, over), sec) == match lookup(over, sec) {
            Some(e) => Some(insert_all(section(base, sec), e)),
            None => lookup(base, sec),
        },
    decreases over.len(),
{
    if over.len() > 0 {
        let init = over.drop_last();
        let last = over.last();
        let ks = crate::strmap::keys_of(over);
        assert(crate::strmap::keys_of(init).no_duplicates()) by {
            assert forall|a: int, b: int| 0 <= a < init.len() && 0 <= b < init.len() && a != b implies crate::strmap::keys_of(
                init,
            )[a] != crate::strmap::keys_of(init)[b] by {
                assert(ks[a] != ks[b]);
            }
        }
        lemma_nested_overlay_lookup(base, init, sec);
        lemma_nested_overlay_lookup(base, init, last.0);
        let acc = nested_overlay(base, init);
        crate::strmap::lemma_lookup_insert_pair(acc, last.0, insert_all(section(acc, last.0), last.1), sec);
        crate::strmap::lemma_lookup_unique_last(over, sec);
        crate::strmap::lemma_lookup_unique_last(over, last.0);
        if lookup(init, last.0) is Some {
            lemma_lookup_some_index(init, last.0);
            let i = choose|i: int| 0 <= i < init.len() && init[i].0 == last.0;
            assert(ks[i] == ks[over.len() - 1]);
        }
    }
}

/// A key that reads a value is held by some pair.
proof fn lemma_lookup_some_index<V>(ps: Seq<(Seq<char>, V)>, key: Seq<char>)
    requires
        lookup(ps, key) is Some,
    ensures
        exists|i: int| 0 <= i < ps.len() && ps[i].0 == key && Some(ps[i].1) == lookup(ps, key),
    decreases ps.len(),
{
    if ps[0].0 != key {
        lemma_lookup_some_index(ps.drop_first(), key);
        let i = choose|i: int|
            0 <= i < ps.drop_first().len() && ps.drop_first()[i].0 == key && Some(ps.drop_first()[i].1)
                == lookup(ps.drop_first(), key);
        assert(ps[i + 1].0 == key && Some(ps[i + 1].1) == lookup(ps, key));
    }
}

// ---------------------------------------------------------------------------
// Merging values
// ---------------------------------------------------------------------------

/// Appends `item` unless `out` already holds it.
fn push_unique(out: &mut Vec<String>, item: &String)
    ensures
        str_views(final(out)@) == if str_views(old(out)@).contains(item@) {
            str_views(old(out)@)
        } else {
            str_views(old(out)@).push(item@)
        },
{
    let ghost before = str_views(out@);
    let mut k: usize = 0;
    while k < out.len()
        invariant
            k <= out@.len(),
            str_views(out@) == before,
            forall|j: int| 0 <= j < k ==> out@[j]@ != item@,
        decreases out@.len() - k,
    {
        if str_eq(out[k].as_str(), item.as_str()) {
            assert(before[k as int] == item@);
            return;
        }
        k = k + 1;
    }
    assert(!before.contains(item@)) by {
        if before.contains(item@) {
            let j = choose|j: int| 0 <= j < before.len() && before[j] == item@;
            assert(out@[j]@ == item@);
        }
    }
    out.push(item.clone());
    assert(str_views(out@) =~= before.push(item@));
}

/// The base list then the overlay list, each item kept at its first occurrence.
fn merge_vec_dedup(base: &Vec<String>, overlay: &Vec<String>) -> (r: Vec<String>)
    ensures
        str_views(r@) == dedup(str_views(base@) + str_views(overlay@)),
{
    let mut out: Vec<String> = Vec::new();
    let mut i: usize = 0;
    assert(str_views(out@) =~= dedup(str_views(base@.take(0))));
    while i < base.len()
        invariant
            i <= base@.len(),
            str_views(out@) == dedup(str_views(base@.take(i as int))),
        decreases base@.len() - i,
    {
        push_unique(&mut out, &base[i]);
        assert(str_views(base@.take(i + 1)).drop_last() =~= str_views(base@.take(i as int)));
        i = i + 1;
    }
    assert(base@.take(base@.len() as int) =~= base@);
    let mut j: usize = 0;
    assert(str_views(base@) + str_views(overlay@.take(0)) =~= str_views(base@));
    while j < overlay.len()
        invariant
            j <= overlay@.len(),
            str_views(out@) == dedup(str_views(base@) + str_views(overlay@.take(j as int))),
        decreases overlay@.len() - j,
    {
        push_unique(&mut out, &overlay[j]);
        assert((str_views(base@) + str_views(overlay@.take(j + 1))).drop_last() =~= str_views(base@)
            + str_views(overlay@.take(j as int)));
        assert((str_views(base@) + str_views(overlay@.take(j + 1))).last() == overlay@[j as int]@);
        j = j + 1;
    }
    assert(overlay@.take(overlay@.len() as int) =~= overlay@);
    out
}

/// Merges optional copyable values.
fn merge_option<T: Copy>(base: &Option<T>, overlay: &Option<T>) -> (r: Option<T>)
    ensures
        r == merged_opt(*base, *overlay),
{
    match overlay {
        Some(o) => Some(*o),
        None => *base,
    }
}

/// Merges optional strings.
fn merge_opt_text(base: &Option<String>, overlay: &Option<String>) -> (r: Option<String>)
    ensures
        r == merged_opt(*base, *overlay),
{
    if overlay.is_some() {
        dup_text(overlay)
    } else {
        dup_text(base)
    }
}

/// Merges optional memory sizes.
fn merge_opt_memory(base: &Option<MemorySize>, overlay: &Option<MemorySize>) -> (r: Option<MemorySize>)
    ensures
        r == merged_opt(*base, *overlay),
{
    if overlay.is_some() {
        dup_memory(overlay)
    } else {
        dup_memory(base)
    }
}

/// Merges optional probes.
fn merge_opt_probe(base: &Option<HealthCheckSpec>, overlay: &Option<HealthCheckSpec>) -> (r: Option<
    HealthCheckSpec,
>)
    ensures
        opt_probe_same(r, merged_opt(*base, *overlay)),
{
    match overlay {
        Some(o) => Some(o.dup()),
        None => match base {
            Some(b) => Some(b.dup()),
            None => None,
        },
    }
}

/// Merges sectioned maps section by section, overlay keys winning within a section.
fn merge_nested_string_map(base: &StrMap<StrMap<String>>, overlay: &StrMap<StrMap<String>>) -> (r:
    StrMap<StrMap<String>>)
    ensures
        r.pairs() == nested_overlay(base.pairs(), overlay.pairs()),
{
    let mut r = base.dup_map();
    let n = overlay.len();
    let mut i: usize = 0;
    while i < n
        invariant
            n == overlay.pairs().len(),
            i <= n,
            r.pairs() == nested_overlay(base.pairs(), overlay.pairs().take(i as int)),
        decreases n - i,
    {
        let sec = overlay.key_at(i);
        let entries = overlay.value_at(i);
        let current = match r.get(sec.as_str()) {
            Some(m) => m.dup_map(),
            None => StrMap::new(),
        };
        let merged = StrMap::overlaid(&current, entries);
        r.insert(sec.clone(), merged);
        assert(overlay.pairs().take(i + 1).drop_last() =~= overlay.pairs().take(i as int));
        i = i + 1;
    }
    assert(overlay.pairs().take(n as int) =~= overlay.pairs());
    r
}

/// The base sockets followed by the overlay sockets.
fn concat_sockets(base: &Vec<SocketSpec>, overlay: &Vec<SocketSpec>) -> (r: Vec<SocketSpec>)
    ensures
        r@ == base@ + overlay@,
{
    let mut out: Vec<SocketSpec> = Vec::new();
    let mut i: usize = 0;
    while i < base.len()
        invariant
            i <= base@.len(),
            out@ == base@.take(i as int),
        decreases base@.len() - i,
    {
        out.push(base[i].dup());
        i = i + 1;
        assert(out@ =~= base@.take(i as int));
    }
    assert(base@.take(base@.len() as int) =~= base@);
    let mut j: usize = 0;
    while j < overlay.len()
        invariant
            j <= overlay@.len(),
            out@ == base@ + overlay@.take(j as int),
        decreases overlay@.len() - j,
    {
        out.push(overlay[j].dup());
        j = j + 1;
        assert(out@ =~= base@ + overlay@.take(j as int));
    }
    assert(overlay@.take(overlay@.len() as int) =~= overlay@);
    out
}

impl Merge for RestartPolicy {
    /// The overlay policy wins entirely.
    fn merge(base: &Self, overlay: &Self) -> (r: Self)
        ensures
            r == *overlay,
    {
        *overlay
    }
}

impl Merge for DependencySpec {
    /// Lists concatenate and deduplicate; the conditions merge by key.
    fn merge(base: &Self, overlay: &Self) -> (r: Self)
        ensures
            str_views(r.after@) == dedup(str_views(base.after@) + str_views(overlay.after@)),
            str_views(r.before@) == dedup(str_views(base.before@) + str_views(overlay.before@)),
            str_views(r.requires@) == dedup(str_views(base.requires@) + str_views(overlay.requires@)),
            str_views(r.wants@) == dedup(str_views(base.wants@) + str_views(overlay.wants@)),
            str_views(r.conflicts@) == dedup(str_views(base.conflicts@) + str_views(overlay.conflicts@)),
            r.conditions.pairs() == insert_all(base.conditions.pairs(), overlay.conditions.pairs()),
            forall|k: Seq<char>|
                #[trigger] r.conditions.lookup(k) == match overlay.conditions.lookup(k) {
                    Some(v) => Some(v),
                    None => base.conditions.lookup(k),
                },
            str_views(r.stop_before@) == dedup(
                str_views(base.stop_before@) + str_views(overlay.stop_before@),
            ),
            str_views(r.stop_after@) == dedup(str_views(base.stop_after@) + str_views(overlay.stop_after@)),
    {
        DependencySpec {
            after: merge_vec_dedup(&base.after, &overlay.after),
            before: merge_vec_dedup(&base.before, &overlay.before),
            requires: merge_vec_dedup(&base.requires, &overlay.requires),
            wants: merge_vec_dedup(&base.wants, &overlay.wants),
            conflicts: merge_vec_dedup(&base.conflicts, &overlay.conflicts),
            conditions: StrMap::overlaid(&base.conditions, &overlay.conditions),
            stop_before: merge_vec_dedup(&base.stop_before, &overlay.stop_before),
            stop_after: merge_vec_dedup(&base.stop_after, &overlay.stop_after),
        }
    }
}

impl Merge for ResourceLimits {
    /// Each limit: an overlay `Some` wins, `None` falls through.
    fn merge(base: &Self, overlay: &Self) -> (r: Self)
        ensures
            r.memory_max == merged_opt(base.memory_max, overlay.memory_max),
            r.memory_high == merged_opt(base.memory_high, overlay.memory_high),
            r.cpu_weight == merged_opt(base.cpu_weight, overlay.cpu_weight),
            r.cpu_quota == merged_opt(base.cpu_quota, overlay.cpu_quota),
            r.tasks_max == merged_opt(base.tasks_max, overlay.tasks_max),
            r.io_weight == merged_opt(base.io_weight, overlay.io_weight),
            r.nice == merged_opt(base.nice, overlay.nice),
    {
        ResourceLimits {
            memory_max: merge_opt_memory(&base.memory_max, &overlay.memory_max),
            memory_high: merge_opt_memory(&base.memory_high, &overlay.memory_high),
            cpu_weight: merge_option(&base.cpu_weight, &overlay.cpu_weight),
            cpu_quota: merge_opt_text(&base.cpu_quota, &overlay.cpu_quota),
            tasks_max: merge_option(&base.tasks_max, &overlay.tasks_max),
            io_weight: merge_option(&base.io_weight, &overlay.io_weight),
            nice: merge_option(&base.nice, &overlay.nice),
        }
    }
}

impl Merge for LoggingSpec {
    /// The overlay logging spec wins entirely.
    fn merge(base: &Self, overlay: &Self) -> (r: Self)
        ensures
            r == *overlay,
    {
        overlay.dup()
    }
}

impl Merge for BackendOverrides {
    /// Maps merge by key, the systemd sections section by section.
    fn merge(base: &Self, overlay: &Self) -> (r: Self)
        ensures
            r.systemd.pairs() == nested_overlay(base.systemd.pairs(), overlay.systemd.pairs()),
            r.launchd.pairs() == insert_all(base.launchd.pairs(), overlay.launchd.pairs()),
            forall|k: Seq<char>|
                #[trigger] r.launchd.lookup(k) == match overlay.launchd.lookup(k) {
                    Some(v) => Some(v),
                    None => base.launchd.lookup(k),
                },
    {
        BackendOverrides {
            systemd: merge_nested_string_map(&base.systemd, &overlay.systemd),
            launchd: StrMap::overlaid(&base.launchd, &overlay.launchd),
        }
    }
}

/// The resource limits of a merge: both present merge, otherwise whichever is present.
pub open spec fn merged_resources_shape(
    base: Option<ResourceLimits>,
    overlay: Option<ResourceLimits>,
    r: Option<ResourceLimits>,
) -> bool {
    match (base, overlay) {
        (Some(b), Some(o)) => r matches Some(x) && x.memory_max == merged_opt(b.memory_max, o.memory_max)
            && x.memory_high == merged_opt(b.memory_high, o.memory_high) && x.cpu_weight == merged_opt(
            b.cpu_weight,
            o.cpu_weight,
        ) && x.cpu_quota == merged_opt(b.cpu_quota, o.cpu_quota) && x.tasks_max == merged_opt(
            b.tasks_max,
            o.tasks_max,
        ) && x.io_weight == merged_opt(b.io_weight, o.io_weight) && x.nice == merged_opt(b.nice, o.nice),
        (_, Some(o)) => r == Some(o),
        (Some(b), None) => r == Some(b),
        (None, None) => r is None,
    }
}

/// What merging `overlay` over `base` makes: scalars from the overlay (an empty overlay
/// description falls through), options overlay-first, lists concatenated and
/// deduplicated (sockets concatenated as they are), maps by key, nested specs by their
/// own merge.
pub open spec fn merged_spec(base: ServiceSpec, overlay: ServiceSpec, r: ServiceSpec) -> bool {
    &&& r.name == overlay.name
    &&& r.description@ == (if overlay.description@.len() == 0 {
        base.description@
    } else {
        overlay.description@
    })
    &&& r.command == overlay.command
    &&& r.service_type == overlay.service_type
    &&& r.notify == overlay.notify
    &&& r.watchdog_sec == overlay.watchdog_sec
    &&& r.timeout_start_sec == overlay.timeout_start_sec
    &&& r.timeout_stop_sec == overlay.timeout_stop_sec
    &&& str_views(r.args@) == dedup(str_views(base.args@) + str_views(overlay.args@))
    &&& r.sockets@ == base.sockets@ + overlay.sockets@
    &&& r.working_directory == merged_opt(base.working_directory, overlay.working_directory)
    &&& r.user == merged_opt(base.user, overlay.user)
    &&& r.group == merged_opt(base.group, overlay.group)
    &&& opt_probe_same(r.liveness, merged_opt(base.liveness, overlay.liveness))
    &&& opt_probe_same(r.readiness, merged_opt(base.readiness, overlay.readiness))
    &&& opt_probe_same(r.startup, merged_opt(base.startup, overlay.startup))
    &&& r.critical == overlay.critical
    &&& merged_resources_shape(base.resources, overlay.resources, r.resources)
    &&& r.environment.pairs() == insert_all(base.environment.pairs(), overlay.environment.pairs())
    &&& forall|k: Seq<char>|
        #[trigger] r.environment.lookup(k) == match overlay.environment.lookup(k) {
            Some(v) => Some(v),
            None => base.environment.lookup(k),
        }
    &&& r.restart == overlay.restart
    &&& str_views(r.depends_on.after@) == dedup(
        str_views(base.depends_on.after@) + str_views(overlay.depends_on.after@),
    )
    &&& str_views(r.depends_on.before@) == dedup(
        str_views(base.depends_on.before@) + str_views(overlay.depends_on.before@),
    )
    &&& str_views(r.depends_on.requires@) == dedup(
        str_views(base.depends_on.requires@) + str_views(overlay.depends_on.requires@),
    )
    &&& str_views(r.depends_on.wants@) == dedup(
        str_views(base.depends_on.wants@) + str_views(overlay.depends_on.wants@),
    )
    &&& str_views(r.depends_on.conflicts@) == dedup(
        str_views(base.depends_on.conflicts@) + str_views(overlay.depends_on.conflicts@),
    )
    &&& r.depends_on.conditions.pairs() == insert_all(
        base.depends_on.conditions.pairs(),
        overlay.depends_on.conditions.pairs(),
    )
    &&& str_views(r.depends_on.stop_before@) == dedup(
        str_views(base.depends_on.stop_before@) + str_views(overlay.depends_on.stop_before@),
    )
    &&& str_views(r.depends_on.stop_after@) == dedup(
        str_views(base.depends_on.stop_after@) + str_views(overlay.depends_on.stop_after@),
    )
    &&& r.logging == overlay.logging
    &&& r.overrides.systemd.pairs() == nested_overlay(
        base.overrides.systemd.pairs(),
        overlay.overrides.systemd.pairs(),
    )
    &&& r.overrides.launchd.pairs() == insert_all(
        base.overrides.launchd.pairs(),
        overlay.overrides.launchd.pairs(),
    )
}

impl Merge for ServiceSpec {
    /// Field by field: scalars from the overlay (an empty overlay description falls
    /// through), options overlay-first, lists concatenated and deduplicated (sockets
    /// concatenated as they are), maps by key, nested specs by their own merge.
    fn merge(base: &Self, overlay: &Self) -> (r: Self)
        ensures
            merged_spec(*base, *overlay, r),
            spec_keys_unique(r),
    {
        let description = if overlay.description.as_str().unicode_len() == 0 {
            base.description.clone()
        } else {
            overlay.description.clone()
        };
        let resources = match (&base.resources, &overlay.resources) {
            (Some(b), Some(o)) => Some(ResourceLimits::merge(b, o)),
            (_, Some(o)) => Some(o.dup()),
            (Some(b), None) => Some(b.dup()),
            (None, None) => None,
        };
        let merged = ServiceSpec {
            name: overlay.name.clone(),
            description,
            command: overlay.command.clone(),
            args: merge_vec_dedup(&base.args, &overlay.args),
            service_type: overlay.service_type,
            working_directory: merge_opt_text(&base.working_directory, &overlay.working_directory),
            user: merge_opt_text(&base.user, &overlay.user),
            group: merge_opt_text(&base.group, &overlay.group),
            environment: StrMap::overlaid(&base.environment, &overlay.environment),
            restart: RestartPolicy::merge(&base.restart, &overlay.restart),
            depends_on: DependencySpec::merge(&base.depends_on, &overlay.depends_on),
            liveness: merge_opt_probe(&base.liveness, &overlay.liveness),
            readiness: merge_opt_probe(&base.readiness, &overlay.readiness),
            startup: merge_opt_probe(&base.startup, &overlay.startup),
            critical: overlay.critical,
            sockets: concat_sockets(&base.sockets, &overlay.sockets),
            resources,
            logging: LoggingSpec::merge(&base.logging, &overlay.logging),
            notify: overlay.notify,
            watchdog_sec: overlay.watchdog_sec,
            timeout_start_sec: overlay.timeout_start_sec,
            timeout_stop_sec: overlay.timeout_stop_sec,
            overrides: BackendOverrides::merge(&base.overrides, &overlay.overrides),
        };
        merged.prove_keys_unique();
        merged
    }
}

/// Two lists of entries that read the same under every key.
pub open spec fn same_entries<V>(x: Seq<(Seq<char>, V)>, y: Seq<(Seq<char>, V)>) -> bool {
    forall|k: Seq<char>| #[trigger] lookup(x, k) == lookup(y, k)
}

/// Two sectioned maps with the same sections, each reading the same under every key.
pub open spec fn same_sections(
    p: Seq<(Seq<char>, Seq<(Seq<char>, Seq<char>)>)>,
    q: Seq<(Seq<char>, Seq<(Seq<char>, Seq<char>)>)>,
) -> bool {
    forall|sec: Seq<char>|
        (#[trigger] lookup(p, sec) is Some <==> lookup(q, sec) is Some) && (lookup(p, sec) is Some
            ==> same_entries(lookup(p, sec).unwrap(), lookup(q, sec).unwrap()))
}

/// Two specs that hold the same: equal fields, lists with the same items in the same
/// order, the same probes, and maps that read the same under every key.
pub open spec fn same_spec(x: ServiceSpec, y: ServiceSpec) -> bool {
    &&& x.name == y.name
    &&& x.description@ == y.description@
    &&& x.command == y.command
    &&& x.service_type == y.service_type
    &&& x.notify == y.notify
    &&& x.watchdog_sec == y.watchdog_sec
    &&& x.timeout_start_sec == y.timeout_start_sec
    &&& x.timeout_stop_sec == y.timeout_stop_sec
    &&& str_views(x.args@) == str_views(y.args@)
    &&& x.sockets@ == y.sockets@
    &&& x.working_directory == y.working_directory
    &&& x.user == y.user
    &&& x.group == y.group
    &&& opt_probe_same(x.liveness, y.liveness)
    &&& opt_probe_same(x.readiness, y.readiness)
    &&& opt_probe_same(x.startup, y.startup)
    &&& x.critical == y.critical
    &&& x.resources == y.resources
    &&& same_entries(x.environment.pairs(), y.environment.pairs())
    &&& x.restart == y.restart
    &&& str_views(x.depends_on.after@) == str_views(y.depends_on.after@)
    &&& str_views(x.depends_on.before@) == str_views(y.depends_on.before@)
    &&& str_views(x.depends_on.requires@) == str_views(y.depends_on.requires@)
    &&& str_views(x.depends_on.wants@) == str_views(y.depends_on.wants@)
    &&& str_views(x.depends_on.conflicts@) == str_views(y.depends_on.conflicts@)
    &&& same_entries(x.depends_on.conditions.pairs(), y.depends_on.conditions.pairs())
    &&& str_views(x.depends_on.stop_before@) == str_views(y.depends_on.stop_before@)
    &&& str_views(x.depends_on.stop_after@) == str_views(y.depends_on.stop_after@)
    &&& x.logging == y.logging
    &&& same_sections(x.overrides.systemd.pairs(), y.overrides.systemd.pairs())
    &&& same_entries(x.overrides.launchd.pairs(), y.overrides.launchd.pairs())
}

/// Entries of a sectioned map with unique keys inside each section: a section that
/// reads has unique keys.
proof fn lemma_section_keys_unique(s: ServiceSpec, sec: Seq<char>)
    requires
        spec_keys_unique(s),
    ensures
        keys_of(section(s.overrides.systemd.pairs(), sec)).no_duplicates(),
{
    let ps = s.overrides.systemd.pairs();
    if lookup(ps, sec) is Some {
        lemma_lookup_some_index(ps, sec);
        let i = choose|i: int| 0 <= i < ps.len() && ps[i].0 == sec && Some(ps[i].1) == lookup(ps, sec);
        assert(keys_of(ps[i].1).no_duplicates());
    } else {
        assert(keys_of(Seq::<(Seq<char>, Seq<char>)>::empty()) =~= Seq::<Seq<char>>::empty());
    }
}

/// Merging specs is associative: stacking `c` over the merge of `a` and `b` holds the
/// same as stacking the merge of `b` and `c` over `a`.
/// Every spec a program holds has unique map keys (`ServiceSpec::prove_keys_unique`),
/// and `merge` ensures them of its result.
pub proof fn lemma_spec_merge_associative(
    a: ServiceSpec,
    b: ServiceSpec,
    c: ServiceSpec,
    ab: ServiceSpec,
    ab_c: ServiceSpec,
    bc: ServiceSpec,
    a_bc: ServiceSpec,
)
    requires
        spec_keys_unique(a),
        spec_keys_unique(b),
        spec_keys_unique(c),
        spec_keys_unique(bc),
        merged_spec(a, b, ab),
        merged_spec(ab, c, ab_c),
        merged_spec(b, c, bc),
        merged_spec(a, bc, a_bc),
    ensures
        same_spec(ab_c, a_bc),
{
    lemma_lists_associative(a, b, c, ab, ab_c, bc, a_bc);
    lemma_maps_associative(a, b, c, ab, ab_c, bc, a_bc);
    lemma_sections_associative(a, b, c, ab, ab_c, bc, a_bc);
    lemma_options_associative(a, b, c, ab, ab_c, bc, a_bc);
    assert(ab_c.sockets@ =~= a_bc.sockets@);
}

/// Sameness of optional probes is an equivalence.
proof fn lemma_probe_same_chain(
    x: Option<HealthCheckSpec>,
    y: Option<HealthCheckSpec>,
    z: Option<HealthCheckSpec>,
)
    ensures
        opt_probe_same(x, x),
        opt_probe_same(x, y) ==> opt_probe_same(y, x),
        opt_probe_same(x, y) && opt_probe_same(y, z) ==> opt_probe_same(x, z),
{
}

/// Optional probes stacked either way agree.
proof fn lemma_probe_associative(
    a: Option<HealthCheckSpec>,
    b: Option<HealthCheckSpec>,
    c: Option<HealthCheckSpec>,
    ab: Option<HealthCheckSpec>,
    ab_c: Option<HealthCheckSpec>,
    bc: Option<HealthCheckSpec>,
    a_bc: Option<HealthCheckSpec>,
)
    requires
        opt_probe_same(ab, merged_opt(a, b)),
        opt_probe_same(ab_c, merged_opt(ab, c)),
        opt_probe_same(bc, merged_opt(b, c)),
        opt_probe_same(a_bc, merged_opt(a, bc)),
    ensures
        opt_probe_same(ab_c, a_bc),
{
    if c is Some {
        lemma_probe_same_chain(a_bc, bc, c);
        lemma_probe_same_chain(ab_c, c, a_bc);
        lemma_probe_same_chain(c, a_bc, a_bc);
    } else if b is Some {
        lemma_probe_same_chain(ab_c, ab, b);
        lemma_probe_same_chain(a_bc, bc, b);
        lemma_probe_same_chain(b, a_bc, a_bc);
        lemma_probe_same_chain(ab_c, b, a_bc);
    } else {
        lemma_probe_same_chain(ab_c, ab, a);
        lemma_probe_same_chain(a_bc, a, a);
        lemma_probe_same_chain(ab_c, a, a_bc);
    }
}

/// Resource limits stacked either way are equal.
proof fn lemma_resources_associative(
    a: Option<ResourceLimits>,
    b: Option<ResourceLimits>,
    c: Option<ResourceLimits>,
    ab: Option<ResourceLimits>,
    ab_c: Option<ResourceLimits>,
    bc: Option<ResourceLimits>,
    a_bc: Option<ResourceLimits>,
)
    requires
        merged_resources_shape(a, b, ab),
        merged_resources_shape(ab, c, ab_c),
        merged_resources_shape(b, c, bc),
        merged_resources_shape(a, bc, a_bc),
    ensures
        ab_c == a_bc,
{
}

/// The optional fields of the two stackings agree.
proof fn lemma_options_associative(
    a: ServiceSpec,
    b: ServiceSpec,
    c: ServiceSpec,
    ab: ServiceSpec,
    ab_c: ServiceSpec,
    bc: ServiceSpec,
    a_bc: ServiceSpec,
)
    requires
        spec_keys_unique(a),
        spec_keys_unique(b),
        spec_keys_unique(c),
        spec_keys_unique(bc),
        merged_spec(a, b, ab),
        merged_spec(ab, c, ab_c),
        merged_spec(b, c, bc),
        merged_spec(a, bc, a_bc),
    ensures
        opt_probe_same(ab_c.liveness, a_bc.liveness),
        opt_probe_same(ab_c.readiness, a_bc.readiness),
        opt_probe_same(ab_c.startup, a_bc.startup),
        ab_c.resources == a_bc.resources,
{
    lemma_probe_associative(a.liveness, b.liveness, c.liveness, ab.liveness, ab_c.liveness, bc.liveness, a_bc.liveness);
    lemma_probe_associative(
        a.readiness,
        b.readiness,
        c.readiness,
        ab.readiness,
        ab_c.readiness,
        bc.readiness,
        a_bc.readiness,
    );
    lemma_probe_associative(a.startup, b.startup, c.startup, ab.startup, ab_c.startup, bc.startup, a_bc.startup);
    lemma_resources_associative(
        a.resources,
        b.resources,
        c.resources,
        ab.resources,
        ab_c.resources,
        bc.resources,
        a_bc.resources,
    );
}

/// The lists of the two stackings hold the same items in the same order.
proof fn lemma_lists_associative(
    a: ServiceSpec,
    b: ServiceSpec,
    c: ServiceSpec,
    ab: ServiceSpec,
    ab_c: ServiceSpec,
    bc: ServiceSpec,
    a_bc: ServiceSpec,
)
    requires
        spec_keys_unique(a),
        spec_keys_unique(b),
        spec_keys_unique(c),
        spec_keys_unique(bc),
        merged_spec(a, b, ab),
        merged_spec(ab, c, ab_c),
        merged_spec(b, c, bc),
        merged_spec(a, bc, a_bc),
    ensures
        str_views(ab_c.args@) == str_views(a_bc.args@),
        str_views(ab_c.depends_on.after@) == str_views(a_bc.depends_on.after@),
        str_views(ab_c.depends_on.before@) == str_views(a_bc.depends_on.before@),
        str_views(ab_c.depends_on.requires@) == str_views(a_bc.depends_on.requires@),
        str_views(ab_c.depends_on.wants@) == str_views(a_bc.depends_on.wants@),
        str_views(ab_c.depends_on.conflicts@) == str_views(a_bc.depends_on.conflicts@),
        str_views(ab_c.depends_on.stop_before@) == str_views(a_bc.depends_on.stop_before@),
        str_views(ab_c.depends_on.stop_after@) == str_views(a_bc.depends_on.stop_after@),
{
    lemma_list_merge_associative(str_views(a.args@), str_views(b.args@), str_views(c.args@));
    lemma_list_merge_associative(
        str_views(a.depends_on.after@),
        str_views(b.depends_on.after@),
        str_views(c.depends_on.after@),
    );
    lemma_list_merge_associative(
        str_views(a.depends_on.before@),
        str_views(b.depends_on.before@),
        str_views(c.depends_on.before@),
    );
    lemma_list_merge_associative(
        str_views(a.depends_on.requires@),
        str_views(b.depends_on.requires@),
        str_views(c.depends_on.requires@),
    );
    lemma_list_merge_associative(
        str_views(a.depends_on.wants@),
        str_views(b.depends_on.wants@),
        str_views(c.depends_on.wants@),
    );
    lemma_list_merge_associative(
        str_views(a.depends_on.conflicts@),
        str_views(b.depends_on.conflicts@),
        str_views(c.depends_on.conflicts@),
    );
    lemma_list_merge_associative(
        str_views(a.depends_on.stop_before@),
        str_views(b.depends_on.stop_before@),
        str_views(c.depends_on.stop_before@),
    );
    lemma_list_merge_associative(
        str_views(a.depends_on.stop_after@),
        str_views(b.depends_on.stop_after@),
        str_views(c.depends_on.stop_after@),
    );
}

/// The maps of the two stackings read the same under every key.
proof fn lemma_maps_associative(
    a: ServiceSpec,
    b: ServiceSpec,
    c: ServiceSpec,
    ab: ServiceSpec,
    ab_c: ServiceSpec,
    bc: ServiceSpec,
    a_bc: ServiceSpec,
)
    requires
        spec_keys_unique(a),
        spec_keys_unique(b),
        spec_keys_unique(c),
        spec_keys_unique(bc),
        merged_spec(a, b, ab),
        merged_spec(ab, c, ab_c),
        merged_spec(b, c, bc),
        merged_spec(a, bc, a_bc),
    ensures
        same_entries(ab_c.environment.pairs(), a_bc.environment.pairs()),
        same_entries(ab_c.depends_on.conditions.pairs(), a_bc.depends_on.conditions.pairs()),
        same_entries(ab_c.overrides.launchd.pairs(), a_bc.overrides.launchd.pairs()),
{
    assert(same_entries(ab_c.environment.pairs(), a_bc.environment.pairs())) by {
        assert forall|k: Seq<char>| #[trigger]
            lookup(ab_c.environment.pairs(), k) == lookup(a_bc.environment.pairs(), k) by {
            assert(ab_c.environment.lookup(k) == lookup(ab_c.environment.pairs(), k));
            assert(a_bc.environment.lookup(k) == lookup(a_bc.environment.pairs(), k));
            assert(ab.environment.lookup(k) == lookup(ab.environment.pairs(), k));
            assert(bc.environment.lookup(k) == lookup(bc.environment.pairs(), k));
        }
    }
    assert(same_entries(ab_c.depends_on.conditions.pairs(), a_bc.depends_on.conditions.pairs())) by {
        assert forall|k: Seq<char>| #[trigger]
            lookup(ab_c.depends_on.conditions.pairs(), k) == lookup(a_bc.depends_on.conditions.pairs(), k) by {
            lemma_map_merge_associative(
                a.depends_on.conditions.pairs(),
                b.depends_on.conditions.pairs(),
                c.depends_on.conditions.pairs(),
                k,
            );
        }
    }
    assert(same_entries(ab_c.overrides.launchd.pairs(), a_bc.overrides.launchd.pairs())) by {
        assert forall|k: Seq<char>| #[trigger]
            lookup(ab_c.overrides.launchd.pairs(), k) == lookup(a_bc.overrides.launchd.pairs(), k) by {
            lemma_map_merge_associative(
                a.overrides.launchd.pairs(),
                b.overrides.launchd.pairs(),
                c.overrides.launchd.pairs(),
                k,
            );
        }
    }
}

/// The systemd sections of the two stackings read the same.
proof fn lemma_sections_associative(
    a: ServiceSpec,
    b: ServiceSpec,
    c: ServiceSpec,
    ab: ServiceSpec,
    ab_c: ServiceSpec,
    bc: ServiceSpec,
    a_bc: ServiceSpec,
)
    requires
        spec_keys_unique(a),
        spec_keys_unique(b),
        spec_keys_unique(c),
        spec_keys_unique(bc),
        merged_spec(a, b, ab),
        merged_spec(ab, c, ab_c),
        merged_spec(b, c, bc),
        merged_spec(a, bc, a_bc),
    ensures
        same_sections(ab_c.overrides.systemd.pairs(), a_bc.overrides.systemd.pairs()),
{
    let pa = a.overrides.systemd.pairs();
    let pb = b.overrides.systemd.pairs();
    let pc = c.overrides.systemd.pairs();
    let pab = ab.overrides.systemd.pairs();
    let pbc = bc.overrides.systemd.pairs();
    assert forall|sec: Seq<char>|
        (#[trigger] lookup(ab_c.overrides.systemd.pairs(), sec) is Some <==> lookup(
            a_bc.overrides.systemd.pairs(),
            sec,
        ) is Some) && (lookup(ab_c.overrides.systemd.pairs(), sec) is Some ==> same_entries(
            lookup(ab_c.overrides.systemd.pairs(), sec).unwrap(),
            lookup(a_bc.overrides.systemd.pairs(), sec).unwrap(),
        )) by {
        lemma_nested_overlay_lookup(pa, pb, sec);
        lemma_nested_overlay_lookup(pab, pc, sec);
        lemma_nested_overlay_lookup(pb, pc, sec);
        lemma_nested_overlay_lookup(pa, pbc, sec);
        if lookup(pc, sec) is Some {
            let e = lookup(pc, sec).unwrap();
            lemma_section_keys_unique(c, sec);
            lemma_section_keys_unique(b, sec);
            lemma_section_keys_unique(bc, sec);
            assert(section(pc, sec) == e);
            let x = insert_all(section(pb, sec), e);
            assert(section(pbc, sec) == x);
            assert forall|k: Seq<char>| #[trigger]
                lookup(insert_all(section(pab, sec), e), k) == lookup(insert_all(section(pa, sec), x), k) by {
                lemma_lookup_insert_all(section(pab, sec), e, k);
                lemma_lookup_insert_all(section(pa, sec), x, k);
                lemma_lookup_insert_all(section(pb, sec), e, k);
                if lookup(pb, sec) is Some {
                    lemma_lookup_insert_all(section(pa, sec), section(pb, sec), k);
                }
            }
        }
    }
}

} // verus!
