use vstd::prelude::*;

use crate::model::{
    model_of, params_of, slot_id, slot_id_fits, NodeModel, NodeRuntimeParams, NodeShape, NodeType,
    RootNote, ScaleMode, MAX_NODE_SLOTS,
};

verus! {

// ── Specification of the node cache ─────────────────────────────────────────

/// Index of the first cached node that sits in slot `slot`, if any.
pub open spec fn first_in_slot<S>(nodes: Seq<NodeModel<S>>, slot: usize) -> Option<int>
    decreases nodes.len(),
{
    if nodes.len() == 0 {
        None
    } else {
        match first_in_slot(nodes.drop_last(), slot) {
            Some(k) => Some(k),
            None => if nodes.last().slot == slot {
                Some(nodes.len() - 1)
            } else {
                None
            },
        }
    }
}

/// Index of the last cached node that sits in slot `slot`, if any.
pub open spec fn last_in_slot<S>(nodes: Seq<NodeModel<S>>, slot: usize) -> Option<int>
    decreases nodes.len(),
{
    if nodes.len() == 0 {
        None
    } else if nodes.last().slot == slot {
        Some(nodes.len() - 1)
    } else {
        last_in_slot(nodes.drop_last(), slot)
    }
}

/// The cached node of slot `slot`: the first entry for that slot.
pub open spec fn lookup<S>(nodes: Seq<NodeModel<S>>, slot: usize) -> Option<NodeModel<S>> {
    match first_in_slot(nodes, slot) {
        Some(k) => Some(nodes[k]),
        None => None,
    }
}

/// Whether some cached node sits in slot `slot` and is enabled.
pub open spec fn occupied<S>(nodes: Seq<NodeModel<S>>, slot: int) -> bool {
    exists|k: int| 0 <= k < nodes.len() && #[trigger] nodes[k].slot == slot && nodes[k].enabled
}

/// Whether slot `slot` may take a new node. While the cache holds nodes it
/// decides; an empty cache defers to the host's enabled flags.
pub open spec fn slot_is_free<S>(nodes: Seq<NodeModel<S>>, enabled: Seq<bool>, slot: int) -> bool {
    if nodes.len() > 0 {
        !occupied(nodes, slot)
    } else {
        !enabled[slot]
    }
}

/// Whether slot `slot` still shows a node: the cached entry decides when
/// there is one, else the host's enabled flag of an existing slot.
pub open spec fn slot_is_shown<S>(nodes: Seq<NodeModel<S>>, enabled: Seq<bool>, slot: usize) -> bool {
    match lookup(nodes, slot) {
        Some(m) => m.enabled,
        None => slot < MAX_NODE_SLOTS && enabled[slot as int],
    }
}

/// `model` with its enabled flag set to `enabled`.
pub open spec fn with_enabled<S>(model: NodeModel<S>, enabled: bool) -> NodeModel<S> {
    NodeModel {
        slot: model.slot,
        id: model.id,
        enabled,
        node_type: model.node_type,
        shape: model.shape,
        scale_root: model.scale_root,
        scale_mode: model.scale_mode,
    }
}

/// The cache after the first entry of `slot` has its enabled flag set.
pub open spec fn enable_in<S>(nodes: Seq<NodeModel<S>>, slot: usize, enabled: bool) -> Seq<
    NodeModel<S>,
> {
    match first_in_slot(nodes, slot) {
        Some(k) => nodes.update(k, with_enabled(nodes[k], enabled)),
        None => nodes,
    }
}

/// The cache after `model` replaces the first entry of its slot, or joins
/// the end when the slot has none.
pub open spec fn upsert_in<S>(nodes: Seq<NodeModel<S>>, model: NodeModel<S>) -> Seq<NodeModel<S>> {
    match first_in_slot(nodes, model.slot) {
        Some(k) => nodes.update(k, model),
        None => nodes.push(model),
    }
}

/// The model that an edit of slot `slot` stores; a missing root or mode takes
/// the scale node's defaults (A, minor pentatonic).
pub open spec fn edited_model<S>(
    slot: usize,
    node_type: NodeType,
    shape: S,
    scale_root: Option<RootNote>,
    scale_mode: Option<ScaleMode>,
    enabled: bool,
) -> NodeModel<S> {
    NodeModel {
        slot,
        id: slot_id(slot),
        enabled,
        node_type,
        shape,
        scale_root: match scale_root {
            Some(r) => r,
            None => RootNote::A,
        },
        scale_mode: match scale_mode {
            Some(m) => m,
            None => ScaleMode::MinorPentatonic,
        },
    }
}

/// The cache rebuilt from the first `n` slots of the host's target
/// parameters: one model per enabled slot, in slot order.
pub open spec fn enabled_models<S>(target: Seq<NodeRuntimeParams<S>>, n: nat) -> Seq<NodeModel<S>>
    decreases n,
{
    if n == 0 {
        Seq::empty()
    } else {
        let prev = enabled_models(target, (n - 1) as nat);
        if target[n - 1].enabled {
            prev.push(model_of((n - 1) as usize, target[n - 1]))
        } else {
            prev
        }
    }
}

/// Node `slot` of the editor's snapshot once the cache is laid over it: the
/// last cached entry of the slot wins.
pub open spec fn overlaid<S>(
    snapshot: Seq<NodeRuntimeParams<S>>,
    nodes: Seq<NodeModel<S>>,
    slot: int,
) -> NodeRuntimeParams<S> {
    match last_in_slot(nodes, slot as usize) {
        Some(k) => params_of(nodes[k]),
        None => snapshot[slot],
    }
}

/// No two cached entries share a slot.
pub open spec fn slots_unique<S>(nodes: Seq<NodeModel<S>>) -> bool {
    forall|i: int, j: int|
        0 <= i < nodes.len() && 0 <= j < nodes.len() && i != j ==> nodes[i].slot != nodes[j].slot
}

// ── Lemmas on the specification ─────────────────────────────────────────────

/// What `first_in_slot` finds.
pub proof fn lemma_first_in_slot<S>(nodes: Seq<NodeModel<S>>, slot: usize)
    ensures
        match first_in_slot(nodes, slot) {
            Some(k) => 0 <= k < nodes.len() && nodes[k].slot == slot && forall|j: int|
                0 <= j < k ==> nodes[j].slot != slot,
            None => forall|j: int| 0 <= j < nodes.len() ==> nodes[j].slot != slot,
        },
    decreases nodes.len(),
{
    if nodes.len() > 0 {
        let prefix = nodes.drop_last();
        lemma_first_in_slot(prefix, slot);
        assert(forall|j: int| 0 <= j < prefix.len() ==> prefix[j] == nodes[j]);
    }
}

/// What `last_in_slot` finds.
pub proof fn lemma_last_in_slot<S>(nodes: Seq<NodeModel<S>>, slot: usize)
    ensures
        match last_in_slot(nodes, slot) {
            Some(k) => 0 <= k < nodes.len() && nodes[k].slot == slot && forall|j: int|
                k < j < nodes.len() ==> nodes[j].slot != slot,
            None => forall|j: int| 0 <= j < nodes.len() ==> nodes[j].slot != slot,
        },
    decreases nodes.len(),
{
    if nodes.len() > 0 {
        let prefix = nodes.drop_last();
        lemma_last_in_slot(prefix, slot);
        assert(forall|j: int| 0 <= j < prefix.len() ==> prefix[j] == nodes[j]);
    }
}

/// `first_in_slot` is the least index holding the slot.
proof fn lemma_first_in_slot_is<S>(nodes: Seq<NodeModel<S>>, slot: usize, k: int)
    requires
        0 <= k < nodes.len(),
        nodes[k].slot == slot,
        forall|j: int| 0 <= j < k ==> nodes[j].slot != slot,
    ensures
        first_in_slot(nodes, slot) == Some(k),
{
    lemma_first_in_slot(nodes, slot);
}

/// `first_in_slot` is `None` when no entry holds the slot.
proof fn lemma_first_in_slot_none<S>(nodes: Seq<NodeModel<S>>, slot: usize)
    requires
        forall|j: int| 0 <= j < nodes.len() ==> nodes[j].slot != slot,
    ensures
        first_in_slot(nodes, slot) is None,
{
    lemma_first_in_slot(nodes, slot);
}

// ── Operations on the node cache ────────────────────────────────────────────

/// Index of the first cached node in slot `slot`.
fn position_of_slot<S>(nodes: &Vec<NodeModel<S>>, slot: usize) -> (r: Option<usize>)
    ensures
        match r {
            Some(k) => k < nodes.len() && nodes@[k as int].slot == slot && first_in_slot(nodes@, slot)
                == Some(k as int),
            None => first_in_slot(nodes@, slot) is None,
        },
{
    let mut i: usize = 0;
    while i < nodes.len()
        invariant
            i <= nodes.len(),
            forall|j: int| 0 <= j < i ==> nodes@[j].slot != slot,
        decreases nodes.len() - i,
    {
        if nodes[i].slot == slot {
            proof { lemma_first_in_slot_is(nodes@, slot, i as int); }
            return Some(i);
        }
        i += 1;
    }
    proof { lemma_first_in_slot_none(nodes@, slot); }
    None
}

/// The first slot that can take a new node. While the cache holds nodes, a
/// slot is free when no enabled cached node sits in it; with an empty cache,
/// when the host reports the slot disabled. `None` when every slot is taken.
pub fn first_free_slot<S>(nodes: &Vec<NodeModel<S>>, enabled: &[bool; MAX_NODE_SLOTS]) -> (r:
    Option<usize>)
    ensures
        match r {
            Some(s) => s < MAX_NODE_SLOTS && slot_is_free(nodes@, enabled@, s as int) && forall|t: int|
                0 <= t < s ==> !slot_is_free(nodes@, enabled@, t),
            None => forall|t: int|
                0 <= t < MAX_NODE_SLOTS ==> !slot_is_free(nodes@, enabled@, t),
        },
{
    if nodes.len() > 0 {
        let mut slot: usize = 0;
        while slot < MAX_NODE_SLOTS
            invariant
                nodes.len() > 0,
                slot <= MAX_NODE_SLOTS,
                forall|t: int| 0 <= t < slot ==> !slot_is_free(nodes@, enabled@, t),
            decreases MAX_NODE_SLOTS - slot,
        {
            let mut taken = false;
            let mut k: usize = 0;
            while k < nodes.len()
                invariant
                    k <= nodes.len(),
                    taken == exists|j: int|
                        0 <= j < k && #[trigger] nodes@[j].slot == slot && nodes@[j].enabled,
                decreases nodes.len() - k,
            {
                if nodes[k].slot == slot && nodes[k].enabled {
                    taken = true;
                }
                k += 1;
            }
            if !taken {
                return Some(slot);
            }
            slot += 1;
        }
        return None;
    }
    let mut slot: usize = 0;
    while slot < MAX_NODE_SLOTS
        invariant
            nodes.len() == 0,
            slot <= MAX_NODE_SLOTS,
            forall|t: int| 0 <= t < slot ==> !slot_is_free(nodes@, enabled@, t),
        decreases MAX_NODE_SLOTS - slot,
    {
        if !enabled[slot] {
            return Some(slot);
        }
        slot += 1;
    }
    None
}

/// The selected slot, kept only while that slot still shows a node: its
/// cached entry is enabled, or, without a cached entry, the host reports it
/// enabled.
pub fn selected_slot<S>(
    selected: Option<usize>,
    nodes: &Vec<NodeModel<S>>,
    enabled: &[bool; MAX_NODE_SLOTS],
) -> (r: Option<usize>)
    ensures
        r == match selected {
            Some(s) => if slot_is_shown(nodes@, enabled@, s) {
                Some(s)
            } else {
                None
            },
            None => None,
        },
{
    match selected {
        None => None,
        Some(slot) => {
            let shown = match position_of_slot(nodes, slot) {
                Some(k) => nodes[k].enabled,
                None => slot < MAX_NODE_SLOTS && enabled[slot],
            };
            if shown {
                Some(slot)
            } else {
                None
            }
        },
    }
}

/// Sets the enabled flag of the cached node in slot `slot`, if there is one.
pub fn set_state_node_enabled<S: Copy>(nodes: &mut Vec<NodeModel<S>>, slot: usize, enabled: bool)
    ensures
        final(nodes)@ == enable_in(old(nodes)@, slot, enabled),
{
    match position_of_slot(nodes, slot) {
        Some(k) => {
            let mut node = nodes[k];
            node.enabled = enabled;
            nodes.set(k, node);
        },
        None => {},
    }
}

/// Stores an edit of slot `slot` in the cache: it replaces the slot's cached
/// node, or joins the cache when the slot has none. A missing root or mode
/// takes the scale node's defaults.
pub fn upsert_state_node<S: Copy>(
    nodes: &mut Vec<NodeModel<S>>,
    slot: usize,
    node_type: NodeType,
    shape: S,
    scale_root: Option<RootNote>,
    scale_mode: Option<ScaleMode>,
    enabled: bool,
)
    requires
        slot_id_fits(slot),
    ensures
        final(nodes)@ == upsert_in(
            old(nodes)@,
            edited_model(slot, node_type, shape, scale_root, scale_mode, enabled),
        ),
{
    let model = NodeModel {
        slot,
        id: slot as u32 + 1,
        enabled,
        node_type,
        shape,
        scale_root: match scale_root {
            Some(r) => r,
            None => RootNote::A,
        },
        scale_mode: match scale_mode {
            Some(m) => m,
            None => ScaleMode::MinorPentatonic,
        },
    };
    match position_of_slot(nodes, slot) {
        Some(k) => {
            nodes.set(k, model);
        },
        None => {
            nodes.push(model);
        },
    }
}

/// The runtime parameters of the cached node in slot `slot`, if there is one.
pub fn state_node_at<S: Copy>(nodes: &Vec<NodeModel<S>>, slot: usize) -> (r: Option<
    NodeRuntimeParams<S>,
>)
    ensures
        r == match lookup(nodes@, slot) {
            Some(m) => Some(params_of(m)),
            None => None,
        },
{
    match position_of_slot(nodes, slot) {
        Some(k) => Some(nodes[k].to_runtime()),
        None => None,
    }
}

/// Rebuilds the cache from the host's target parameters: one model per
/// enabled slot, in slot order.
pub fn sync_state_nodes_from_target<S: Copy>(target: &[NodeRuntimeParams<S>; MAX_NODE_SLOTS]) -> (r:
    Vec<NodeModel<S>>)
    ensures
        r@ == enabled_models(target@, MAX_NODE_SLOTS as nat),
{
    let mut out: Vec<NodeModel<S>> = Vec::new();
    let mut slot: usize = 0;
    while slot < MAX_NODE_SLOTS
        invariant
            slot <= MAX_NODE_SLOTS,
            out@ == enabled_models(target@, slot as nat),
        decreases MAX_NODE_SLOTS - slot,
    {
        let node = target[slot];
        if node.enabled {
            out.push(NodeModel::from_runtime(slot, node));
        }
        slot += 1;
    }
    out
}

/// Lays the cache over the editor's snapshot: each cached node overwrites
/// the snapshot node of its slot, later entries after earlier ones; entries
/// for slots past the last are ignored.
pub fn overlay_state_nodes<S: Copy>(
    snapshot: &mut [NodeRuntimeParams<S>; MAX_NODE_SLOTS],
    nodes: &Vec<NodeModel<S>>,
)
    ensures
        forall|i: int|
            0 <= i < MAX_NODE_SLOTS ==> #[trigger] final(snapshot)@[i] == overlaid(old(snapshot)@, nodes@, i),
{
    let ghost start = snapshot@;
    let mut k: usize = 0;
    while k < nodes.len()
        invariant
            k <= nodes.len(),
            forall|i: int|
                0 <= i < MAX_NODE_SLOTS ==> #[trigger] snapshot@[i] == overlaid(
                    start,
                    nodes@.take(k as int),
                    i,
                ),
        decreases nodes.len() - k,
    {
        let node = nodes[k];
        let ghost before = snapshot@;
        if node.slot < MAX_NODE_SLOTS {
            snapshot[node.slot] = node.to_runtime();
        }
        proof {
            let prefix = nodes@.take(k as int + 1);
            assert(prefix.drop_last() == nodes@.take(k as int));
            assert(prefix.last() == node);
            assert forall|i: int| 0 <= i < MAX_NODE_SLOTS implies #[trigger] snapshot@[i] == overlaid(
                start,
                prefix,
                i,
            ) by {
                if node.slot == i as usize {
                    assert(last_in_slot(prefix, i as usize) == Some(k as int));
                    assert(prefix[k as int] == node);
                } else {
                    assert(last_in_slot(prefix, i as usize) == last_in_slot(
                        nodes@.take(k as int),
                        i as usize,
                    ));
                    lemma_last_in_slot(nodes@.take(k as int), i as usize);
                    assert(forall|j: int| 0 <= j < k ==> prefix[j] == nodes@.take(k as int)[j]);
                }
            }
        }
        k += 1;
    }
    proof {
        assert(nodes@.take(nodes.len() as int) == nodes@);
    }
}

/// The first slot the host reports enabled, if any.
pub fn first_enabled_slot(enabled: &[bool; MAX_NODE_SLOTS]) -> (r: Option<usize>)
    ensures
        match r {
            Some(s) => s < MAX_NODE_SLOTS && enabled@[s as int] && forall|t: int|
                0 <= t < s ==> !enabled@[t],
            None => forall|t: int| 0 <= t < MAX_NODE_SLOTS ==> !enabled@[t],
        },
{
    let mut slot: usize = 0;
    while slot < MAX_NODE_SLOTS
        invariant
            slot <= MAX_NODE_SLOTS,
            forall|t: int| 0 <= t < slot ==> !enabled@[t],
        decreases MAX_NODE_SLOTS - slot,
    {
        if enabled[slot] {
            return Some(slot);
        }
        slot += 1;
    }
    None
}

// ── Laws of the node cache ──────────────────────────────────────────────────

/// Reading a slot back after an edit gives the edited model, and an edit
/// leaves what every other slot reads unchanged.
pub proof fn lemma_upsert_then_lookup<S>(nodes: Seq<NodeModel<S>>, model: NodeModel<S>, other: usize)
    ensures
        lookup(upsert_in(nodes, model), model.slot) == Some(model),
        other != model.slot ==> lookup(upsert_in(nodes, model), other) == lookup(nodes, other),
{
    let after = upsert_in(nodes, model);
    lemma_first_in_slot(nodes, model.slot);
    lemma_first_in_slot(nodes, other);
    match first_in_slot(nodes, model.slot) {
        Some(k) => {
            lemma_first_in_slot_is(after, model.slot, k);
            if other != model.slot {
                match first_in_slot(nodes, other) {
                    Some(j) => lemma_first_in_slot_is(after, other, j),
                    None => lemma_first_in_slot_none(after, other),
                }
            }
        },
        None => {
            lemma_first_in_slot_is(after, model.slot, nodes.len() as int);
            if other != model.slot {
                match first_in_slot(nodes, other) {
                    Some(j) => lemma_first_in_slot_is(after, other, j),
                    None => lemma_first_in_slot_none(after, other),
                }
            }
        },
    }
}

/// Edits keep the cache free of two entries for one slot.
pub proof fn lemma_upsert_keeps_slots_unique<S>(nodes: Seq<NodeModel<S>>, model: NodeModel<S>)
    requires
        slots_unique(nodes),
    ensures
        slots_unique(upsert_in(nodes, model)),
{
    lemma_first_in_slot(nodes, model.slot);
}

/// An enabled edit occupies its slot, so the slot is no longer free.
pub proof fn lemma_upsert_occupies<S>(nodes: Seq<NodeModel<S>>, model: NodeModel<S>, enabled: Seq<bool>)
    requires
        model.enabled,
    ensures
        occupied(upsert_in(nodes, model), model.slot as int),
        !slot_is_free(upsert_in(nodes, model), enabled, model.slot as int),
{
    let after = upsert_in(nodes, model);
    lemma_first_in_slot(nodes, model.slot);
    match first_in_slot(nodes, model.slot) {
        Some(k) => assert(after[k].slot == model.slot && after[k].enabled),
        None => assert(after[nodes.len() as int].slot == model.slot && after[nodes.len() as int].enabled),
    }
}

/// Setting the enabled flag of a slot changes what that slot reads only in
/// its flag, and leaves every other slot unchanged.
pub proof fn lemma_enable_then_lookup<S>(nodes: Seq<NodeModel<S>>, slot: usize, enabled: bool, other: usize)
    ensures
        lookup(enable_in(nodes, slot, enabled), slot) == match lookup(nodes, slot) {
            Some(m) => Some(with_enabled(m, enabled)),
            None => None,
        },
        other != slot ==> lookup(enable_in(nodes, slot, enabled), other) == lookup(nodes, other),
{
    let after = enable_in(nodes, slot, enabled);
    lemma_first_in_slot(nodes, slot);
    lemma_first_in_slot(nodes, other);
    match first_in_slot(nodes, slot) {
        Some(k) => {
            lemma_first_in_slot_is(after, slot, k);
            if other != slot {
                match first_in_slot(nodes, other) {
                    Some(j) => lemma_first_in_slot_is(after, other, j),
                    None => lemma_first_in_slot_none(after, other),
                }
            }
        },
        None => {},
    }
}

/// Disabling a cached slot hides it from the selection.
pub proof fn lemma_disabled_slot_not_shown<S>(nodes: Seq<NodeModel<S>>, enabled: Seq<bool>, slot: usize)
    requires
        lookup(nodes, slot) is Some,
    ensures
        !slot_is_shown(enable_in(nodes, slot, false), enabled, slot),
{
    lemma_enable_then_lookup(nodes, slot, false, slot);
}

/// Entry `k` of `c` sits in a slot below `n`, is enabled there and reads
/// back that slot's target parameters.
spec fn entry_ok<S>(target: Seq<NodeRuntimeParams<S>>, c: Seq<NodeModel<S>>, n: nat, k: int) -> bool {
    &&& c[k].slot < n
    &&& c[k] == model_of(c[k].slot, target[c[k].slot as int])
    &&& target[c[k].slot as int].enabled
}

/// If slot `s` is enabled, `c` holds it at the position counted by the
/// enabled slots below it.
spec fn slot_found<S>(target: Seq<NodeRuntimeParams<S>>, c: Seq<NodeModel<S>>, s: int) -> bool {
    target[s].enabled ==> enabled_below(target, s) < c.len() && c[enabled_below(target, s) as int].slot
        == s
}

/// `c` is a cache rebuilt from the first `n` target slots.
spec fn cache_of_prefix<S>(target: Seq<NodeRuntimeParams<S>>, c: Seq<NodeModel<S>>, n: nat) -> bool {
    &&& forall|k: int| 0 <= k < c.len() ==> #[trigger] entry_ok(target, c, n, k)
    &&& forall|i: int, j: int| 0 <= i < j < c.len() ==> c[i].slot < c[j].slot
    &&& c.len() == enabled_below(target, n as int)
    &&& forall|s: int| 0 <= s < n ==> #[trigger] slot_found(target, c, s)
}

/// Number of enabled target slots below `s`: where slot `s` lands in a
/// rebuilt cache.
spec fn enabled_below<S>(target: Seq<NodeRuntimeParams<S>>, s: int) -> nat
    decreases s,
{
    if s <= 0 {
        0
    } else {
        enabled_below(target, s - 1) + if target[s - 1].enabled {
            1nat
        } else {
            0nat
        }
    }
}

proof fn lemma_cache_step<S>(
    target: Seq<NodeRuntimeParams<S>>,
    prev: Seq<NodeModel<S>>,
    c: Seq<NodeModel<S>>,
    n: nat,
)
    requires
        0 < n <= MAX_NODE_SLOTS,
        target.len() == MAX_NODE_SLOTS,
        cache_of_prefix(target, prev, (n - 1) as nat),
        c == if target[n - 1].enabled {
            prev.push(model_of((n - 1) as usize, target[n - 1]))
        } else {
            prev
        },
    ensures
        cache_of_prefix(target, c, n),
{
    assert forall|k: int| 0 <= k < c.len() implies #[trigger] entry_ok(target, c, n, k) by {
        if k < prev.len() {
            assert(entry_ok(target, prev, (n - 1) as nat, k));
        }
    }
    assert forall|i: int, j: int| 0 <= i < j < c.len() implies c[i].slot < c[j].slot by {
        assert(entry_ok(target, prev, (n - 1) as nat, i));
        if j < prev.len() {
            assert(c[i].slot == prev[i].slot && c[j].slot == prev[j].slot);
        }
    }
    assert forall|s: int| 0 <= s < n implies #[trigger] slot_found(target, c, s) by {
        if s < n - 1 {
            assert(slot_found(target, prev, s));
        }
    }
}

/// Shape of a cache rebuilt from the first `n` target slots.
proof fn lemma_enabled_models_prefix<S>(target: Seq<NodeRuntimeParams<S>>, n: nat)
    requires
        n <= MAX_NODE_SLOTS,
        target.len() == MAX_NODE_SLOTS,
    ensures
        cache_of_prefix(target, enabled_models(target, n), n),
    decreases n,
{
    if n > 0 {
        lemma_enabled_models_prefix(target, (n - 1) as nat);
        lemma_cache_step(target, enabled_models(target, (n - 1) as nat), enabled_models(target, n), n);
    }
}

/// A cache rebuilt from the host's targets holds exactly the enabled slots,
/// once each and in slot order, and each reads back the slot's parameters.
pub proof fn lemma_synced_cache<S>(target: Seq<NodeRuntimeParams<S>>)
    requires
        target.len() == MAX_NODE_SLOTS,
    ensures
        slots_unique(enabled_models(target, MAX_NODE_SLOTS as nat)),
        forall|i: int, j: int|
            0 <= i < j < enabled_models(target, MAX_NODE_SLOTS as nat).len() ==> enabled_models(
                target,
                MAX_NODE_SLOTS as nat,
            )[i].slot < enabled_models(target, MAX_NODE_SLOTS as nat)[j].slot,
        forall|s: usize|
            s < MAX_NODE_SLOTS ==> #[trigger] lookup(enabled_models(target, MAX_NODE_SLOTS as nat), s)
                == if target[s as int].enabled {
                Some(model_of(s, target[s as int]))
            } else {
                None
            },
{
    let c = enabled_models(target, MAX_NODE_SLOTS as nat);
    lemma_enabled_models_prefix(target, MAX_NODE_SLOTS as nat);
    assert forall|s: usize| s < MAX_NODE_SLOTS implies #[trigger] lookup(c, s) == if target[
        s as int].enabled {
        Some(model_of(s, target[s as int]))
    } else {
        None
    } by {
        lemma_synced_slot(target, c, s);
    }
}

/// Where slot `s` sits in a rebuilt cache.
proof fn lemma_synced_slot<S>(target: Seq<NodeRuntimeParams<S>>, c: Seq<NodeModel<S>>, s: usize)
    requires
        target.len() == MAX_NODE_SLOTS,
        s < MAX_NODE_SLOTS,
        cache_of_prefix(target, c, MAX_NODE_SLOTS as nat),
    ensures
        lookup(c, s) == if target[s as int].enabled {
            Some(model_of(s, target[s as int]))
        } else {
            None
        },
        last_in_slot(c, s) == first_in_slot(c, s),
{
    lemma_first_in_slot(c, s);
    lemma_last_in_slot(c, s);
    assert(slot_found(target, c, s as int));
    match first_in_slot(c, s) {
        Some(k) => {
            assert(entry_ok(target, c, MAX_NODE_SLOTS as nat, k));
            let w = enabled_below(target, s as int) as int;
            if w != k {
                assert(c[w].slot == s);
            }
            match last_in_slot(c, s) {
                Some(l) => {
                    if l != k {
                        assert(c[l].slot == s);
                    }
                },
                None => {},
            }
        },
        None => {
            if target[s as int].enabled {
                let w = enabled_below(target, s as int) as int;
                assert(c[w].slot == s);
            }
            match last_in_slot(c, s) {
                Some(l) => assert(c[l].slot == s),
                None => {},
            }
        },
    }
}

/// The editor's snapshot built from a freshly rebuilt cache is the host's
/// target snapshot itself.
pub proof fn lemma_overlay_of_synced_cache<S>(target: Seq<NodeRuntimeParams<S>>)
    requires
        target.len() == MAX_NODE_SLOTS,
    ensures
        forall|i: int|
            0 <= i < MAX_NODE_SLOTS ==> #[trigger] overlaid(
                target,
                enabled_models(target, MAX_NODE_SLOTS as nat),
                i,
            ) == target[i],
{
    let c = enabled_models(target, MAX_NODE_SLOTS as nat);
    lemma_enabled_models_prefix(target, MAX_NODE_SLOTS as nat);
    assert forall|i: int| 0 <= i < MAX_NODE_SLOTS implies #[trigger] overlaid(target, c, i)
        == target[i] by {
        lemma_synced_slot(target, c, i as usize);
    }
}

// ── Graph edits ─────────────────────────────────────────────────────────────

/// The lowest free slot at or above `from`, if any.
pub open spec fn free_slot_from<S>(nodes: Seq<NodeModel<S>>, enabled: Seq<bool>, from: int) -> Option<
    usize,
>
    decreases MAX_NODE_SLOTS - from,
{
    if from < 0 || from >= MAX_NODE_SLOTS {
        None
    } else if slot_is_free(nodes, enabled, from) {
        Some(from as usize)
    } else {
        free_slot_from(nodes, enabled, from + 1)
    }
}

proof fn lemma_free_slot_from<S>(
    nodes: Seq<NodeModel<S>>,
    enabled: Seq<bool>,
    from: int,
    r: Option<usize>,
)
    requires
        0 <= from <= MAX_NODE_SLOTS,
        match r {
            Some(s) => from <= s < MAX_NODE_SLOTS && slot_is_free(nodes, enabled, s as int) && forall|t: int|
                from <= t < s ==> !slot_is_free(nodes, enabled, t),
            None => forall|t: int| from <= t < MAX_NODE_SLOTS ==> !slot_is_free(nodes, enabled, t),
        },
    ensures
        free_slot_from(nodes, enabled, from) == r,
    decreases MAX_NODE_SLOTS - from,
{
    if from < MAX_NODE_SLOTS {
        if !slot_is_free(nodes, enabled, from) {
            lemma_free_slot_from(nodes, enabled, from + 1, r);
        }
    }
}

/// An edit made on the node graph.
#[derive(Clone, Copy, Debug, PartialEq)]
pub enum GraphEdit<F> {
    /// Nothing happened.
    Nothing,
    /// A click selected a node, or nothing.
    Select(Option<usize>),
    /// A double click adds a bell node with this shape in the first free slot.
    AddBell { freq_hz: F, amount_ms: F, width_oct: F },
    /// A drag moved the node of `slot`.
    Move { slot: usize, freq_hz: F, amount_ms: F },
    /// A handle drag or the wheel changed the width of the node of `slot`.
    Width { slot: usize, width_oct: F },
    /// The node of `slot` is removed.
    Remove(usize),
}

/// A write of one host parameter of a node slot.
#[derive(Clone, Copy, Debug, PartialEq)]
pub enum ParamWrite<F> {
    NodeType(usize, NodeType),
    Freq(usize, F),
    Amount(usize, F),
    Width(usize, F),
    Enabled(usize, bool),
}

/// What becomes of the editor's selection after an edit.
#[derive(Clone, Copy, Debug, PartialEq, Eq, Structural)]
pub enum SelectionUpdate {
    /// The selection stays.
    Keep,
    /// The selection becomes this.
    Replace(Option<usize>),
    /// The selection becomes the first slot the host reports enabled once the
    /// writes are done.
    FirstEnabled,
}

/// The host writes and the selection change of an edit.
pub struct GraphStep<F> {
    pub writes: Vec<ParamWrite<F>>,
    pub selection: SelectionUpdate,
}

/// The node cache after `edit`.
pub open spec fn edit_cache<F>(
    nodes: Seq<NodeModel<NodeShape<F>>>,
    enabled: Seq<bool>,
    edit: GraphEdit<F>,
) -> Seq<NodeModel<NodeShape<F>>> {
    match edit {
        GraphEdit::AddBell { freq_hz, amount_ms, width_oct } => match free_slot_from(
            nodes,
            enabled,
            0,
        ) {
            Some(slot) => upsert_in(
                nodes,
                edited_model(
                    slot,
                    NodeType::Bell,
                    NodeShape { freq_hz, amount_ms, width_oct },
                    None,
                    None,
                    true,
                ),
            ),
            None => nodes,
        },
        GraphEdit::Move { slot, freq_hz, amount_ms } => if slot < MAX_NODE_SLOTS {
            match lookup(nodes, slot) {
                Some(m) => upsert_in(
                    nodes,
                    edited_model(
                        slot,
                        m.node_type,
                        NodeShape { freq_hz, amount_ms, width_oct: m.shape.width_oct },
                        Some(m.scale_root),
                        Some(m.scale_mode),
                        m.enabled,
                    ),
                ),
                None => nodes,
            }
        } else {
            nodes
        },
        GraphEdit::Width { slot, width_oct } => if slot < MAX_NODE_SLOTS {
            match lookup(nodes, slot) {
                Some(m) => upsert_in(
                    nodes,
                    edited_model(
                        slot,
                        m.node_type,
                        NodeShape { freq_hz: m.shape.freq_hz, amount_ms: m.shape.amount_ms, width_oct },
                        Some(m.scale_root),
                        Some(m.scale_mode),
                        m.enabled,
                    ),
                ),
                None => nodes,
            }
        } else {
            nodes
        },
        GraphEdit::Remove(slot) => enable_in(nodes, slot, false),
        _ => nodes,
    }
}

/// The host writes of `edit`, in order.
pub open spec fn edit_writes<F>(
    nodes: Seq<NodeModel<NodeShape<F>>>,
    enabled: Seq<bool>,
    edit: GraphEdit<F>,
) -> Seq<ParamWrite<F>> {
    match edit {
        GraphEdit::AddBell { freq_hz, amount_ms, width_oct } => match free_slot_from(
            nodes,
            enabled,
            0,
        ) {
            Some(slot) => seq![
                ParamWrite::NodeType(slot, NodeType::Bell),
                ParamWrite::Freq(slot, freq_hz),
                ParamWrite::Amount(slot, amount_ms),
                ParamWrite::Width(slot, width_oct),
                ParamWrite::Enabled(slot, true),
            ],
            None => Seq::empty(),
        },
        GraphEdit::Move { slot, freq_hz, amount_ms } => if slot < MAX_NODE_SLOTS {
            seq![ParamWrite::Freq(slot, freq_hz), ParamWrite::Amount(slot, amount_ms)]
        } else {
            Seq::empty()
        },
        GraphEdit::Width { slot, width_oct } => if slot < MAX_NODE_SLOTS {
            seq![ParamWrite::Width(slot, width_oct)]
        } else {
            Seq::empty()
        },
        GraphEdit::Remove(slot) => if slot < MAX_NODE_SLOTS {
            seq![ParamWrite::Enabled(slot, false)]
        } else {
            Seq::empty()
        },
        _ => Seq::empty(),
    }
}

/// The selection change of `edit`.
pub open spec fn edit_selection<F>(
    nodes: Seq<NodeModel<NodeShape<F>>>,
    enabled: Seq<bool>,
    edit: GraphEdit<F>,
) -> SelectionUpdate {
    match edit {
        GraphEdit::Select(slot) => SelectionUpdate::Replace(slot),
        GraphEdit::AddBell { .. } => match free_slot_from(nodes, enabled, 0) {
            Some(slot) => SelectionUpdate::Replace(Some(slot)),
            None => SelectionUpdate::Keep,
        },
        GraphEdit::Remove(_) => SelectionUpdate::FirstEnabled,
        _ => SelectionUpdate::Keep,
    }
}

/// Applies a graph edit to the node cache and says which host parameters to
/// write, in order, and how the selection changes. `enabled` holds the host's
/// enabled flags before the edit.
pub fn graph_action_step<F: Copy>(
    nodes: &mut Vec<NodeModel<NodeShape<F>>>,
    enabled: &[bool; MAX_NODE_SLOTS],
    edit: GraphEdit<F>,
) -> (step: GraphStep<F>)
    ensures
        final(nodes)@ == edit_cache(old(nodes)@, enabled@, edit),
        step.writes@ == edit_writes(old(nodes)@, enabled@, edit),
        step.selection == edit_selection(old(nodes)@, enabled@, edit),
{
    let ghost start = nodes@;
    let mut writes: Vec<ParamWrite<F>> = Vec::new();
    match edit {
        GraphEdit::Nothing => GraphStep { writes, selection: SelectionUpdate::Keep },
        GraphEdit::Select(slot) => GraphStep { writes, selection: SelectionUpdate::Replace(slot) },
        GraphEdit::AddBell { freq_hz, amount_ms, width_oct } => {
            let free = first_free_slot(nodes, enabled);
            proof { lemma_free_slot_from(start, enabled@, 0, free); }
            match free {
                Some(slot) => {
                    writes.push(ParamWrite::NodeType(slot, NodeType::Bell));
                    writes.push(ParamWrite::Freq(slot, freq_hz));
                    writes.push(ParamWrite::Amount(slot, amount_ms));
                    writes.push(ParamWrite::Width(slot, width_oct));
                    writes.push(ParamWrite::Enabled(slot, true));
                    upsert_state_node(
                        nodes,
                        slot,
                        NodeType::Bell,
                        NodeShape::new(freq_hz, amount_ms, width_oct),
                        None,
                        None,
                        true,
                    );
                    assert(writes@ =~= edit_writes(start, enabled@, edit));
                    GraphStep { writes, selection: SelectionUpdate::Replace(Some(slot)) }
                },
                None => GraphStep { writes, selection: SelectionUpdate::Keep },
            }
        },
        GraphEdit::Move { slot, freq_hz, amount_ms } => {
            if slot < MAX_NODE_SLOTS {
                writes.push(ParamWrite::Freq(slot, freq_hz));
                writes.push(ParamWrite::Amount(slot, amount_ms));
                match position_of_slot(nodes, slot) {
                    Some(k) => {
                        let m = nodes[k];
                        upsert_state_node(
                            nodes,
                            slot,
                            m.node_type,
                            NodeShape::new(freq_hz, amount_ms, m.shape.width_oct),
                            Some(m.scale_root),
                            Some(m.scale_mode),
                            m.enabled,
                        );
                    },
                    None => {},
                }
                assert(writes@ =~= edit_writes(start, enabled@, edit));
            }
            GraphStep { writes, selection: SelectionUpdate::Keep }
        },
        GraphEdit::Width { slot, width_oct } => {
            if slot < MAX_NODE_SLOTS {
                writes.push(ParamWrite::Width(slot, width_oct));
                match position_of_slot(nodes, slot) {
                    Some(k) => {
                        let m = nodes[k];
                        upsert_state_node(
                            nodes,
                            slot,
                            m.node_type,
                            NodeShape::new(m.shape.freq_hz, m.shape.amount_ms, width_oct),
                            Some(m.scale_root),
                            Some(m.scale_mode),
                            m.enabled,
                        );
                    },
                    None => {},
                }
                assert(writes@ =~= edit_writes(start, enabled@, edit));
            }
            GraphStep { writes, selection: SelectionUpdate::Keep }
        },
        GraphEdit::Remove(slot) => {
            if slot < MAX_NODE_SLOTS {
                writes.push(ParamWrite::Enabled(slot, false));
                assert(writes@ =~= edit_writes(start, enabled@, edit));
            }
            set_state_node_enabled(nodes, slot, false);
            GraphStep { writes, selection: SelectionUpdate::FirstEnabled }
        },
    }
}

// ── Laws of graph edits and of the editor snapshot ──────────────────────────

/// `free_slot_from` finds the lowest free slot at or above `from`.
proof fn lemma_free_slot_from_is_lowest<S>(nodes: Seq<NodeModel<S>>, enabled: Seq<bool>, from: int)
    requires
        0 <= from <= MAX_NODE_SLOTS,
    ensures
        match free_slot_from(nodes, enabled, from) {
            Some(s) => from <= s < MAX_NODE_SLOTS && slot_is_free(nodes, enabled, s as int)
                && forall|t: int| from <= t < s ==> !slot_is_free(nodes, enabled, t),
            None => forall|t: int| from <= t < MAX_NODE_SLOTS ==> !slot_is_free(nodes, enabled, t),
        },
    decreases MAX_NODE_SLOTS - from,
{
    if from < MAX_NODE_SLOTS && !slot_is_free(nodes, enabled, from) {
        lemma_free_slot_from_is_lowest(nodes, enabled, from + 1);
    }
}

/// Adding a bell on the graph puts an enabled bell node of the given shape
/// into the lowest free slot: the slot reads back that node, is occupied
/// and shown, every other slot reads back as before, and the new slot is
/// selected. With no free slot nothing changes.
pub proof fn lemma_graph_add_bell<F>(
    nodes: Seq<NodeModel<NodeShape<F>>>,
    enabled: Seq<bool>,
    freq_hz: F,
    amount_ms: F,
    width_oct: F,
    other: usize,
)
    ensures
        ({
            let edit = GraphEdit::AddBell { freq_hz, amount_ms, width_oct };
            let after = edit_cache(nodes, enabled, edit);
            match free_slot_from(nodes, enabled, 0) {
                Some(s) => {
                    &&& s < MAX_NODE_SLOTS
                    &&& slot_is_free(nodes, enabled, s as int)
                    &&& forall|t: int| 0 <= t < s ==> !slot_is_free(nodes, enabled, t)
                    &&& lookup(after, s) matches Some(m) && m.slot == s && m.enabled && m.node_type
                        == NodeType::Bell && m.shape == (NodeShape { freq_hz, amount_ms, width_oct })
                    &&& occupied(after, s as int)
                    &&& slot_is_shown(after, enabled, s)
                    &&& other != s ==> lookup(after, other) == lookup(nodes, other)
                    &&& edit_selection(nodes, enabled, edit) == SelectionUpdate::Replace(Some(s))
                },
                None => {
                    &&& after == nodes
                    &&& forall|t: int| 0 <= t < MAX_NODE_SLOTS ==> !slot_is_free(nodes, enabled, t)
                    &&& edit_selection(nodes, enabled, edit) == SelectionUpdate::Keep
                },
            }
        }),
{
    lemma_free_slot_from_is_lowest(nodes, enabled, 0);
    match free_slot_from(nodes, enabled, 0) {
        Some(s) => {
            let model = edited_model(
                s,
                NodeType::Bell,
                NodeShape { freq_hz, amount_ms, width_oct },
                None,
                None,
                true,
            );
            lemma_upsert_then_lookup(nodes, model, other);
            lemma_upsert_occupies(nodes, model, enabled);
        },
        None => {},
    }
}

/// Changing a node's width on the graph changes only the width of the cached
/// node of that slot: its type, scale, enabled flag, frequency and amount stay;
/// other slots read back as before; an uncached slot leaves the cache alone.
pub proof fn lemma_graph_width<F>(
    nodes: Seq<NodeModel<NodeShape<F>>>,
    enabled: Seq<bool>,
    slot: usize,
    width_oct: F,
    other: usize,
)
    requires
        slot < MAX_NODE_SLOTS,
    ensures
        ({
            let after = edit_cache(nodes, enabled, GraphEdit::Width { slot, width_oct });
            &&& other != slot ==> lookup(after, other) == lookup(nodes, other)
            &&& match lookup(nodes, slot) {
                Some(m) => lookup(after, slot) matches Some(n) && {
                    &&& n.slot == slot
                    &&& n.node_type == m.node_type
                    &&& n.scale_root == m.scale_root
                    &&& n.scale_mode == m.scale_mode
                    &&& n.enabled == m.enabled
                    &&& n.shape.freq_hz == m.shape.freq_hz
                    &&& n.shape.amount_ms == m.shape.amount_ms
                    &&& n.shape.width_oct == width_oct
                },
                None => after == nodes,
            }
        }),
{
    match lookup(nodes, slot) {
        Some(m) => {
            let model = edited_model(
                slot,
                m.node_type,
                NodeShape { freq_hz: m.shape.freq_hz, amount_ms: m.shape.amount_ms, width_oct },
                Some(m.scale_root),
                Some(m.scale_mode),
                m.enabled,
            );
            lemma_upsert_then_lookup(nodes, model, other);
        },
        None => {},
    }
}

/// Dragging a node on the graph changes only the frequency and amount of the
/// cached node of that slot: its type, width, scale and enabled flag stay;
/// other slots read back as before; an uncached slot leaves the cache alone.
pub proof fn lemma_graph_move<F>(
    nodes: Seq<NodeModel<NodeShape<F>>>,
    enabled: Seq<bool>,
    slot: usize,
    freq_hz: F,
    amount_ms: F,
    other: usize,
)
    requires
        slot < MAX_NODE_SLOTS,
    ensures
        ({
            let after = edit_cache(nodes, enabled, GraphEdit::Move { slot, freq_hz, amount_ms });
            &&& other != slot ==> lookup(after, other) == lookup(nodes, other)
            &&& match lookup(nodes, slot) {
                Some(m) => lookup(after, slot) matches Some(n) && {
                    &&& n.slot == slot
                    &&& n.node_type == m.node_type
                    &&& n.scale_root == m.scale_root
                    &&& n.scale_mode == m.scale_mode
                    &&& n.enabled == m.enabled
                    &&& n.shape.freq_hz == freq_hz
                    &&& n.shape.amount_ms == amount_ms
                    &&& n.shape.width_oct == m.shape.width_oct
                },
                None => after == nodes,
            }
        }),
{
    match lookup(nodes, slot) {
        Some(m) => {
            let model = edited_model(
                slot,
                m.node_type,
                NodeShape { freq_hz, amount_ms, width_oct: m.shape.width_oct },
                Some(m.scale_root),
                Some(m.scale_mode),
                m.enabled,
            );
            lemma_upsert_then_lookup(nodes, model, other);
        },
        None => {},
    }
}

/// In the editor snapshot every cached entry overrides its slot, whatever
/// its enabled flag: a slot without cached entries keeps the host's value,
/// and otherwise takes the parameters of its latest cached entry.
pub proof fn lemma_overlay_cache_wins<S>(
    snapshot: Seq<NodeRuntimeParams<S>>,
    nodes: Seq<NodeModel<S>>,
    s: int,
    k: int,
)
    requires
        0 <= s < MAX_NODE_SLOTS,
    ensures
        (forall|j: int| 0 <= j < nodes.len() ==> nodes[j].slot != s as usize) ==> overlaid(
            snapshot,
            nodes,
            s,
        ) == snapshot[s],
        0 <= k < nodes.len() && nodes[k].slot == s as usize && (forall|j: int|
            k < j < nodes.len() ==> nodes[j].slot != s as usize) ==> overlaid(snapshot, nodes, s)
            == params_of(nodes[k]),
{
    lemma_last_in_slot(nodes, s as usize);
    if 0 <= k < nodes.len() && nodes[k].slot == s as usize && (forall|j: int|
        k < j < nodes.len() ==> nodes[j].slot != s as usize) {
        match last_in_slot(nodes, s as usize) {
            Some(l) => {
                if l < k {
                    assert(nodes[k].slot != s as usize);
                } else if l > k {
                    assert(nodes[l].slot != s as usize);
                }
            },
            None => {
                assert(nodes[k].slot != s as usize);
            },
        }
    }
}

/// With one cached entry per slot, the editor snapshot shows the cached node
/// of each slot that has one, enabled or not, and the host's value elsewhere.
pub proof fn lemma_overlay_shows_cached_nodes<S>(
    snapshot: Seq<NodeRuntimeParams<S>>,
    nodes: Seq<NodeModel<S>>,
    s: usize,
)
    requires
        s < MAX_NODE_SLOTS,
        slots_unique(nodes),
    ensures
        overlaid(snapshot, nodes, s as int) == match lookup(nodes, s) {
            Some(m) => params_of(m),
            None => snapshot[s as int],
        },
{
    lemma_first_in_slot(nodes, s);
    match first_in_slot(nodes, s) {
        Some(k) => {
            lemma_overlay_cache_wins(snapshot, nodes, s as int, k);
        },
        None => {
            lemma_overlay_cache_wins(snapshot, nodes, s as int, 0);
        },
    }
}

/// Removing a node on the graph disables its cached entry (which then no
/// longer shows), writes the host's enabled flag off for an existing slot,
/// and leaves every other slot as it was.
pub proof fn lemma_graph_remove<F>(
    nodes: Seq<NodeModel<NodeShape<F>>>,
    enabled: Seq<bool>,
    slot: usize,
    other: usize,
)
    ensures
        ({
            let edit = GraphEdit::<F>::Remove(slot);
            let after = edit_cache(nodes, enabled, edit);
            &&& other != slot ==> lookup(after, other) == lookup(nodes, other)
            &&& lookup(nodes, slot) is Some ==> !slot_is_shown(after, enabled, slot)
            &&& slot < MAX_NODE_SLOTS ==> edit_writes(nodes, enabled, edit) == seq![
                ParamWrite::<F>::Enabled(slot, false),
            ]
            &&& edit_selection(nodes, enabled, edit) == SelectionUpdate::FirstEnabled
        }),
{
    lemma_enable_then_lookup(nodes, slot, false, other);
    if lookup(nodes, slot) is Some {
        lemma_disabled_slot_not_shown(nodes, enabled, slot);
    }
}

} // verus!
