//! The reconcilers: the lifecycle classifier, registration of source
//! items into the desired-mapping index, and the planners that say what
//! the surrounding controller must patch or create.

use vstd::prelude::*;
use crate::types::{
    Action, BondAction, Error, SecretCreate, SecretData, SecretPlan, Source, SourceItem,
    SourcePlan, SourceSpec,
};
use crate::identity::{
    after_sep, before_sep, dest_identities_of, destination_identity, identity_of, make_identity,
    split_identity,
};
use crate::index::{ids_view, Index};
use crate::status::{format_status, status_ready_str};

verus! {

/// What the classifier decides for a `Source` object: a deletion request
/// always wins; otherwise an absent or empty finalizer list is the sole
/// trigger for registration; otherwise nothing is to be done.
pub open spec fn action_of(source: Source) -> BondAction {
    if source.metadata.has_deletion_timestamp {
        BondAction::Delete
    } else if match source.metadata.finalizers {
        Option::Some(fs) => fs@.len() == 0,
        Option::None => true,
    } {
        BondAction::Create
    } else {
        BondAction::NoOp
    }
}

/// Classify a `Source` object from its two lifecycle flags alone.
pub fn determine_action(source: &Source) -> (r: BondAction)
    ensures
        r == action_of(*source),
{
    if source.metadata.has_deletion_timestamp {
        BondAction::Delete
    } else {
        match &source.metadata.finalizers {
            Option::Some(fs) => {
                if fs.len() == 0 {
                    BondAction::Create
                } else {
                    BondAction::NoOp
                }
            },
            Option::None => BondAction::Create,
        }
    }
}

/// Registering one source item: its identity is keyed into the map with
/// its destination list, unless already present — registration is
/// one-shot per identity.
pub open spec fn register_one(
    m: Map<Seq<char>, Seq<Seq<char>>>,
    ns: Seq<char>,
    item: SourceItem,
) -> Map<Seq<char>, Seq<Seq<char>>> {
    let key = identity_of(ns, item.name@);
    if m.contains_key(key) {
        m
    } else {
        m.insert(key, dest_identities_of(item))
    }
}

/// Registering a whole spec: its items in order, each one-shot.
pub open spec fn register_all(
    m: Map<Seq<char>, Seq<Seq<char>>>,
    ns: Seq<char>,
    items: Seq<SourceItem>,
) -> Map<Seq<char>, Seq<Seq<char>>>
    decreases items.len(),
{
    if items.len() == 0 {
        m
    } else {
        register_all(register_one(m, ns, items[0]), ns, items.drop_first())
    }
}

/// Registration peels off the last item as a final `register_one` step.
proof fn lemma_register_all_push(
    m: Map<Seq<char>, Seq<Seq<char>>>,
    ns: Seq<char>,
    items: Seq<SourceItem>,
    item: SourceItem,
)
    ensures
        register_all(m, ns, items.push(item)) == register_one(
            register_all(m, ns, items),
            ns,
            item,
        ),
    decreases items.len(),
{
    let s1 = items.push(item);
    if items.len() == 0 {
        assert(s1[0] == item);
        assert(s1.drop_first() =~= Seq::<SourceItem>::empty());
        assert(register_all(m, ns, s1) == register_all(
            register_one(m, ns, item),
            ns,
            s1.drop_first(),
        ));
        assert(register_all(register_one(m, ns, item), ns, s1.drop_first()) == register_one(
            m,
            ns,
            item,
        ));
        assert(register_all(m, ns, items) == m);
    } else {
        let m1 = register_one(m, ns, items[0]);
        assert(s1[0] == items[0]);
        assert(s1.drop_first() =~= items.drop_first().push(item));
        lemma_register_all_push(m1, ns, items.drop_first(), item);
        assert(register_all(m, ns, s1) == register_all(m1, ns, s1.drop_first()));
        assert(register_all(m, ns, items) == register_all(m1, ns, items.drop_first()));
    }
}

/// Register every item of a spec whose identity is not yet in the index.
pub fn register_source_items(index: &mut Index, namespace: &String, spec: &SourceSpec)
    requires
        old(index).wf(),
    ensures
        final(index).wf(),
        final(index)@ == register_all(old(index)@, namespace@, spec.secrets@),
{
    let n = spec.secrets.len();
    let mut i: usize = 0;
    while i < n
        invariant
            index.wf(),
            n == spec.secrets.len(),
            i <= n,
            index@ == register_all(old(index)@, namespace@, spec.secrets@.take(i as int)),
        decreases n - i,
    {
        let item = &spec.secrets[i];
        let key = make_identity(namespace.as_str(), item.name.as_str());
        if !index.contains_key(&key) {
            let mut dests: Vec<String> = Vec::new();
            let m = item.destinations.len();
            let mut j: usize = 0;
            while j < m
                invariant
                    m == item.destinations.len(),
                    j <= m,
                    dests@.len() == j,
                    forall|t: int|
                        0 <= t < j ==> dests@[t]@ == dest_identities_of(*item)[t],
                decreases m - j,
            {
                let d = destination_identity(&item.name, &item.destinations[j]);
                dests.push(d);
                j = j + 1;
            }
            proof {
                assert(ids_view(dests) =~= dest_identities_of(*item));
            }
            index.insert(key, dests);
        }
        proof {
            assert(spec.secrets@.take(i + 1) =~= spec.secrets@.take(i as int).push(
                spec.secrets@[i as int],
            ));
            lemma_register_all_push(
                old(index)@,
                namespace@,
                spec.secrets@.take(i as int),
                spec.secrets@[i as int],
            );
        }
        i = i + 1;
    }
    proof {
        assert(spec.secrets@.take(n as int) =~= spec.secrets@);
    }
}

/// Registration is idempotent: running a spec through the index a second
/// time changes nothing, because every item's identity is already keyed.
pub proof fn lemma_register_idempotent(
    m: Map<Seq<char>, Seq<Seq<char>>>,
    ns: Seq<char>,
    items: Seq<SourceItem>,
)
    ensures
        register_all(register_all(m, ns, items), ns, items) == register_all(m, ns, items),
    decreases items.len(),
{
    lemma_register_all_complete(m, ns, items);
    lemma_register_idempotent_from(ns, items, register_all(m, ns, items));
}

/// Registration only ever adds keys: whatever is in the map stays, with
/// its value.
pub proof fn lemma_register_all_monotone(
    m: Map<Seq<char>, Seq<Seq<char>>>,
    ns: Seq<char>,
    items: Seq<SourceItem>,
)
    ensures
        forall|k: Seq<char>|
            m.contains_key(k) ==> #[trigger] register_all(m, ns, items).contains_key(k)
                && register_all(m, ns, items)[k] == m[k],
    decreases items.len(),
{
    if items.len() == 0 {
    } else {
        let m1 = register_one(m, ns, items[0]);
        lemma_register_all_monotone(m1, ns, items.drop_first());
        assert(register_all(m, ns, items) == register_all(m1, ns, items.drop_first()));
        assert forall|k: Seq<char>| m.contains_key(k) implies #[trigger] register_all(
            m,
            ns,
            items,
        ).contains_key(k) && register_all(m, ns, items)[k] == m[k] by {
            assert(m1.contains_key(k) && m1[k] == m[k]);
            assert(register_all(m1, ns, items.drop_first()).contains_key(k) && register_all(
                m1,
                ns,
                items.drop_first(),
            )[k] == m1[k]);
        }
    }
}

/// Running `items` against any map that already holds every key the run
/// would touch — in particular, against its own result — changes nothing.
proof fn lemma_register_idempotent_from(
    ns: Seq<char>,
    items: Seq<SourceItem>,
    m2: Map<Seq<char>, Seq<Seq<char>>>,
)
    requires
        forall|i: int|
            0 <= i < items.len() ==> #[trigger] m2.contains_key(
                identity_of(ns, items[i].name@),
            ),
    ensures
        register_all(m2, ns, items) == m2,
    decreases items.len(),
{
    if items.len() == 0 {
    } else {
        assert(m2.contains_key(identity_of(ns, items[0].name@)));
        assert(register_one(m2, ns, items[0]) == m2);
        assert forall|i: int|
            0 <= i < items.drop_first().len() implies #[trigger] m2.contains_key(
            identity_of(ns, items.drop_first()[i].name@),
        ) by {
            assert(items.drop_first()[i] == items[i + 1]);
            assert(m2.contains_key(identity_of(ns, items[i + 1].name@)));
        }
        lemma_register_idempotent_from(ns, items.drop_first(), m2);
        assert(register_all(m2, ns, items) == register_all(
            register_one(m2, ns, items[0]),
            ns,
            items.drop_first(),
        ));
    }
}

/// The result of a full registration holds every item's identity.
pub proof fn lemma_register_all_complete(
    m: Map<Seq<char>, Seq<Seq<char>>>,
    ns: Seq<char>,
    items: Seq<SourceItem>,
)
    ensures
        forall|i: int|
            0 <= i < items.len() ==> #[trigger] register_all(m, ns, items).contains_key(
                identity_of(ns, items[i].name@),
            ),
    decreases items.len(),
{
    if items.len() == 0 {
    } else {
        let m1 = register_one(m, ns, items[0]);
        lemma_register_all_complete(m1, ns, items.drop_first());
        lemma_register_all_monotone(m1, ns, items.drop_first());
        assert(register_all(m, ns, items) == register_all(m1, ns, items.drop_first()));
        assert forall|i: int| 0 <= i < items.len() implies #[trigger] register_all(
            m,
            ns,
            items,
        ).contains_key(identity_of(ns, items[i].name@)) by {
            if i == 0 {
                assert(m1.contains_key(identity_of(ns, items[0].name@)));
                assert(register_all(m1, ns, items.drop_first()).contains_key(
                    identity_of(ns, items[0].name@),
                ));
            } else {
                assert(items.drop_first()[i - 1] == items[i]);
                assert(register_all(m1, ns, items.drop_first()).contains_key(
                    identity_of(ns, items.drop_first()[i - 1].name@),
                ));
            }
        }
    }
}

/// The finalizer token this controller merge-patches onto every `Source`
/// object it has claimed. No removal path exists.
pub fn finalizer_token() -> (r: &'static str)
    ensures
        r@ == "bind.ectobit.com"@,
{
    "bind.ectobit.com"
}

/// Reconcile a `Source` object against the index.
///
/// On the registration path every not-yet-registered item is keyed into
/// the index, and the plan carries the `"0/<total>"` status and the order
/// to attach the finalizer. Deletion and no-op paths leave the index
/// alone and only reschedule. A missing identity field on the
/// registration path is rejected, never trusted.
pub fn reconcile_source(index: &mut Index, source: &Source) -> (r: Result<SourcePlan, Error>)
    requires
        old(index).wf(),
    ensures
        final(index).wf(),
        r is Err <==> action_of(*source) is Create && (source.metadata.namespace is None
            || source.metadata.name is None),
        match r {
            Result::Ok(plan) => {
                &&& plan.requeue_secs == 300
                &&& match action_of(*source) {
                    BondAction::Create => {
                        &&& final(index)@ == register_all(
                            old(index)@,
                            source.metadata.namespace->0@,
                            source.spec.secrets@,
                        )
                        &&& plan.status matches Some(st) && st.ready@ == status_ready_str(
                            final(index)@.dom().len(),
                        )
                        &&& plan.add_finalizer
                    },
                    BondAction::Delete => {
                        &&& final(index)@ == old(index)@
                        &&& plan.status is None
                        &&& !plan.add_finalizer
                    },
                    BondAction::NoOp => {
                        &&& final(index)@ == old(index)@
                        &&& plan.status is None
                        &&& !plan.add_finalizer
                    },
                }
            },
            Result::Err(e) => {
                &&& final(index)@ == old(index)@
                &&& e matches Error::MissingObjectKey(f) && (if source.metadata.namespace
                    is None {
                    f@ == "namespace"@
                } else {
                    f@ == "name"@
                })
            },
        },
{
    match determine_action(source) {
        BondAction::Create => {
            let ns = match &source.metadata.namespace {
                Option::Some(ns) => ns,
                Option::None => {
                    return Result::Err(Error::MissingObjectKey("namespace"));
                },
            };
            match &source.metadata.name {
                Option::Some(_) => {},
                Option::None => {
                    return Result::Err(Error::MissingObjectKey("name"));
                },
            }
            register_source_items(index, ns, &source.spec);
            let total = index.len();
            let status = format_status(total);
            Result::Ok(
                SourcePlan {
                    status: Option::Some(status),
                    add_finalizer: true,
                    requeue_secs: 300,
                },
            )
        },
        BondAction::Delete => Result::Ok(
            SourcePlan { status: Option::None, add_finalizer: false, requeue_secs: 300 },
        ),
        BondAction::NoOp => Result::Ok(
            SourcePlan { status: Option::None, add_finalizer: false, requeue_secs: 300 },
        ),
    }
}

/// Whether every destination identity can be split into namespace and
/// name, i.e. holds a slash.
pub open spec fn all_splittable(dests: Seq<Seq<char>>) -> bool {
    forall|i: int| 0 <= i < dests.len() ==> (#[trigger] dests[i]).contains('/')
}

/// The planned creates mirror the destination list: one per destination,
/// in order, each addressed by the split of its identity.
pub open spec fn creates_match(cs: Seq<SecretCreate>, dests: Seq<Seq<char>>) -> bool {
    &&& cs.len() == dests.len()
    &&& forall|i: int|
        0 <= i < dests.len() ==> (#[trigger] cs[i]).namespace@ == before_sep(dests[i])
            && cs[i].name@ == before_sep(after_sep(dests[i]))
}

/// Reconcile an observed secret against the index.
///
/// If the secret's identity is registered, the plan holds one create per
/// associated destination, in order, each carrying the payload verbatim;
/// an unregistered identity plans no creates at all. Missing identity
/// fields, and a registered destination identity no slash can split, are
/// rejected, never trusted.
pub fn reconcile_secret(
    index: &Index,
    namespace: &Option<String>,
    name: &Option<String>,
    data: SecretData,
) -> (r: Result<SecretPlan, Error>)
    requires
        index.wf(),
    ensures
        r is Ok <==> (namespace is Some && name is Some && (index@.contains_key(
            identity_of(namespace->0@, name->0@),
        ) ==> all_splittable(index@[identity_of(namespace->0@, name->0@)]))),
        match r {
            Result::Ok(plan) => {
                let id = identity_of(namespace->0@, name->0@);
                &&& plan.requeue_secs == 300
                &&& plan.data == data
                &&& index@.contains_key(id) ==> creates_match(plan.creates@, index@[id])
                &&& !index@.contains_key(id) ==> plan.creates@.len() == 0
            },
            Result::Err(e) => {
                &&& e matches Error::MissingObjectKey(f)
                &&& (if namespace is None {
                    f@ == "namespace"@
                } else if name is None {
                    f@ == "name"@
                } else {
                    f@ == "destination"@
                })
            },
        },
{
    let ns = match namespace {
        Option::Some(ns) => ns,
        Option::None => {
            return Result::Err(Error::MissingObjectKey("namespace"));
        },
    };
    let nm = match name {
        Option::Some(nm) => nm,
        Option::None => {
            return Result::Err(Error::MissingObjectKey("name"));
        },
    };
    let id = make_identity(ns.as_str(), nm.as_str());
    match index.get(&id) {
        Option::None => Result::Ok(
            SecretPlan { creates: Vec::new(), data, requeue_secs: 300 },
        ),
        Option::Some(dests) => {
            let n = dests.len();
            let mut creates: Vec<SecretCreate> = Vec::new();
            let mut i: usize = 0;
            while i < n
                invariant
                    n == dests.len(),
                    i <= n,
                    namespace matches Some(x) && x == *ns,
                    name matches Some(x) && x == *nm,
                    ids_view(*dests) == index@[identity_of(ns@, nm@)],
                    index@.contains_key(identity_of(ns@, nm@)),
                    creates@.len() == i,
                    forall|t: int|
                        0 <= t < i ==> (#[trigger] ids_view(*dests)[t]).contains('/'),
                    forall|t: int|
                        0 <= t < i ==> (#[trigger] creates@[t]).namespace@ == before_sep(
                            ids_view(*dests)[t],
                        ) && creates@[t].name@ == before_sep(after_sep(ids_view(*dests)[t])),
                decreases n - i,
            {
                match split_identity(dests[i].as_str()) {
                    Option::Some(p) => {
                        creates.push(SecretCreate { namespace: p.0, name: p.1 });
                    },
                    Option::None => {
                        proof {
                            assert(ids_view(*dests)[i as int] == dests@[i as int]@);
                            assert(!(ids_view(*dests)[i as int]).contains('/'));
                            assert(!all_splittable(index@[identity_of(ns@, nm@)]));
                        }
                        return Result::Err(Error::MissingObjectKey("destination"));
                    },
                }
                i = i + 1;
            }
            Result::Ok(SecretPlan { creates, data, requeue_secs: 300 })
        },
    }
}

/// Map any reconciliation failure to the uniform bounded retry delay.
pub fn error_policy(_error: &Error) -> (r: Action)
    ensures
        r.requeue_secs == 60,
{
    Action { requeue_secs: 60 }
}

} // verus!
