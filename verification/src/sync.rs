//! The template differencer.
//!
//! One pass over a template section and the Thing's corresponding current
//! map: create a default record for every template key that is missing,
//! overwrite only the definition-controlled fields of records that exist,
//! delete every record whose key left the template. Surviving entries keep
//! their relative order; fresh entries append in template order.
//!
//! The same three-way logic runs over four families: synthetic features,
//! on-changed handlers, on-deleting handlers, and timers.

use vstd::prelude::*;
use crate::config;
use crate::model;
use crate::ordmap::OrderedMap;
use crate::ordmap::distinct_keys;
use crate::ordmap::entry_keys;
use crate::ordmap::has_key;
use crate::ordmap::key_index;
use crate::ordmap::key_string_of;
use crate::ordmap::lemma_key_index;
use crate::ordmap::lemma_key_index_unique;
use crate::ordmap::lemma_lookup_concat;
use crate::ordmap::lemma_lookup_push;
use crate::ordmap::value_of;

verus! {

// ---------------------------------------------------------------------------
// The key structure of a sync, shared by all four families.
// ---------------------------------------------------------------------------

/// Keys of `cur` that the template keeps, in their current order.
pub open spec fn merged_keys<R, C>(
    cur: Seq<(String, R)>,
    config: Seq<(String, C)>,
) -> Seq<Seq<char>>
    decreases cur.len(),
{
    if cur.len() == 0 {
        Seq::empty()
    } else {
        let rest = merged_keys(cur.drop_first(), config);
        if has_key(config, cur[0].0@) {
            seq![cur[0].0@] + rest
        } else {
            rest
        }
    }
}

/// Template keys with no current entry, in template order.
pub open spec fn added_keys<C, R>(
    config: Seq<(String, C)>,
    cur: Seq<(String, R)>,
) -> Seq<Seq<char>>
    decreases config.len(),
{
    if config.len() == 0 {
        Seq::empty()
    } else {
        let rest = added_keys(config.drop_first(), cur);
        if has_key(cur, config[0].0@) {
            rest
        } else {
            seq![config[0].0@] + rest
        }
    }
}

/// The entry order after a sync: surviving entries first, in their old
/// order, then fresh entries in template order.
pub open spec fn sync_keys<R, C>(
    cur: Seq<(String, R)>,
    config: Seq<(String, C)>,
) -> Seq<Seq<char>> {
    merged_keys(cur, config) + added_keys(config, cur)
}

/// Key membership in a sequence steps off its head.
proof fn lemma_has_key_head<V>(s: Seq<(String, V)>, k: Seq<char>)
    requires
        s.len() > 0,
    ensures
        has_key(s, k) == (s[0].0@ == k || has_key(s.drop_first(), k)),
{
    if has_key(s, k) {
        let i = key_index(s, k);
        if i > 0 {
            assert(s.drop_first()[i - 1].0@ == k);
        }
    }
    if has_key(s.drop_first(), k) {
        let i = key_index(s.drop_first(), k);
        assert(s[i + 1].0@ == k);
    }
}

/// Extending the template by one definition appends its key exactly when no
/// current entry carries it.
proof fn lemma_added_keys_push<C, R>(config: Seq<(String, C)>, e: (String, C), cur: Seq<
    (String, R),
>)
    ensures
        has_key(cur, e.0@) ==> added_keys(config.push(e), cur) == added_keys(config, cur),
        !has_key(cur, e.0@) ==> added_keys(config.push(e), cur) == added_keys(config, cur).push(
            e.0@,
        ),
    decreases config.len(),
{
    let p = config.push(e);
    assert(p.len() == config.len() + 1);
    if config.len() == 0 {
        assert(p[0] == e);
        assert(p.drop_first() =~= Seq::<(String, C)>::empty());
        assert(added_keys(p.drop_first(), cur) == Seq::<Seq<char>>::empty());
        assert(added_keys(config, cur) == Seq::<Seq<char>>::empty());
        if has_key(cur, e.0@) {
            assert(added_keys(p, cur) == added_keys(p.drop_first(), cur));
        } else {
            assert(added_keys(p, cur) == seq![e.0@] + added_keys(p.drop_first(), cur));
            assert(seq![e.0@] + Seq::<Seq<char>>::empty() =~= Seq::<Seq<char>>::empty().push(
                e.0@,
            ));
        }
    } else {
        lemma_added_keys_push(config.drop_first(), e, cur);
        assert(p[0] == config[0]);
        assert(p.drop_first() =~= config.drop_first().push(e));
        let restp = added_keys(p.drop_first(), cur);
        let restc = added_keys(config.drop_first(), cur);
        if has_key(cur, config[0].0@) {
            assert(added_keys(p, cur) == restp);
            assert(added_keys(config, cur) == restc);
        } else {
            assert(added_keys(p, cur) == seq![config[0].0@] + restp);
            assert(added_keys(config, cur) == seq![config[0].0@] + restc);
            if !has_key(cur, e.0@) {
                assert(restp == restc.push(e.0@));
                assert(seq![config[0].0@] + restc.push(e.0@) =~= (seq![config[0].0@]
                    + restc).push(e.0@));
            }
        }
    }
}

// ---------------------------------------------------------------------------
// Synthetic features.
// ---------------------------------------------------------------------------

/// Overwrite the definition-controlled field, keep the runtime fields.
pub open spec fn merge_synthetic(
    c: config::Synthetic,
    r: model::SyntheticFeature,
) -> model::SyntheticFeature {
    model::SyntheticFeature { ty: c.to_type_spec(), value: r.value, last_update: r.last_update }
}

/// A default record: type from the definition, no cached value, stamped
/// `now`.
pub open spec fn fresh_synthetic(c: config::Synthetic, now: i64) -> model::SyntheticFeature {
    model::SyntheticFeature {
        ty: c.to_type_spec(),
        value: model::CachedValue::Null,
        last_update: now,
    }
}

/// Complete description of one synthetics sync from `cur` under `config` to
/// `result`.
pub open spec fn synthetics_synced(
    cur: Seq<(String, model::SyntheticFeature)>,
    config: Seq<(String, config::Synthetic)>,
    result: Seq<(String, model::SyntheticFeature)>,
    now: i64,
) -> bool {
    &&& entry_keys(result) == sync_keys(cur, config)
    &&& distinct_keys(result)
    &&& forall|k: Seq<char>|
        #[trigger] has_key(cur, k) && has_key(config, k) ==> has_key(result, k) && value_of(
            result,
            k,
        ) == merge_synthetic(value_of(config, k), value_of(cur, k)) && key_string_of(result, k)
            == key_string_of(cur, k)
    &&& forall|k: Seq<char>|
        #[trigger] has_key(config, k) && !has_key(cur, k) ==> has_key(result, k) && value_of(
            result,
            k,
        ) == fresh_synthetic(value_of(config, k), now) && key_string_of(result, k)
            == key_string_of(config, k)
    &&& forall|k: Seq<char>| #[trigger] has_key(result, k) ==> has_key(config, k)
}

/// Sync the synthetic-feature map of a Thing with the template's
/// synthetic-feature section. `now` stamps freshly created records.
pub fn sync_synthetics(
    config: &OrderedMap<config::Synthetic>,
    target: &mut OrderedMap<model::SyntheticFeature>,
    now: i64,
)
    requires
        config.wf(),
        old(target).wf(),
    ensures
        final(target).wf(),
        synthetics_synced(old(target)@, config@, final(target)@, now),
{
    let ghost cur0 = old(target)@;
    let mut result: OrderedMap<model::SyntheticFeature> = OrderedMap::new();
    let ghost mut processed: Seq<(String, model::SyntheticFeature)> = Seq::empty();
    loop
        invariant
            config.wf(),
            target.wf(),
            result.wf(),
            distinct_keys(cur0),
            cur0 == processed + target@,
            merged_keys(cur0, config@) == entry_keys(result@) + merged_keys(target@, config@),
            forall|k: Seq<char>| #[trigger] has_key(result@, k) ==> !has_key(target@, k),
            forall|k: Seq<char>|
                #[trigger] has_key(result@, k) ==> has_key(cur0, k) && has_key(config@, k)
                    && value_of(result@, k) == merge_synthetic(
                    value_of(config@, k),
                    value_of(cur0, k),
                ) && key_string_of(result@, k) == key_string_of(cur0, k),
            forall|k: Seq<char>|
                #[trigger] has_key(cur0, k) && has_key(config@, k) && !has_key(target@, k)
                    ==> has_key(result@, k),
        ensures
            target@.len() == 0,
        decreases target@.len(),
    {
        let ghost t_pre = target@;
        let ghost r_pre = result@;
        match target.remove_first() {
            None => {
                break ;
            },
            Some((key, value)) => {
                proof {
                    lemma_key_index_unique(t_pre, key@, 0);
                    lemma_lookup_concat(processed, t_pre, key@);
                }
                match config.get(&key) {
                    Some(c) => {
                        let merged = model::SyntheticFeature {
                            ty: c.to_type(),
                            value: value.value,
                            last_update: value.last_update,
                        };
                        proof {
                            assert(!has_key(r_pre, key@));
                        }
                        let ghost entry = (key, merged);
                        result.push(key, merged);
                        proof {
                            processed = processed.push(t_pre[0]);
                            assert(cur0 =~= processed + target@);
                            assert(merged_keys(t_pre, config@) == seq![key@] + merged_keys(
                                target@,
                                config@,
                            ));
                            assert(entry_keys(result@) =~= entry_keys(r_pre).push(key@));
                            assert(entry_keys(r_pre) + merged_keys(t_pre, config@)
                                =~= entry_keys(result@) + merged_keys(target@, config@));
                            assert forall|k: Seq<char>| #[trigger] has_key(result@, k) implies
                                !has_key(target@, k) by {
                                lemma_lookup_push(r_pre, entry, k);
                                if k == key@ {
                                    if has_key(target@, k) {
                                        let i = key_index(target@, k);
                                        assert(t_pre[i + 1].0@ == k);
                                    }
                                } else {
                                    if has_key(target@, k) {
                                        let i = key_index(target@, k);
                                        assert(t_pre[i + 1].0@ == k);
                                    }
                                }
                            }
                            assert forall|k: Seq<char>| #[trigger] has_key(result@, k) implies
                                has_key(cur0, k) && has_key(config@, k) && value_of(result@, k)
                                == merge_synthetic(value_of(config@, k), value_of(cur0, k))
                                && key_string_of(result@, k) == key_string_of(cur0, k) by {
                                lemma_lookup_push(r_pre, entry, k);
                            }
                            assert forall|k: Seq<char>|
                                #[trigger] has_key(cur0, k) && has_key(config@, k) && !has_key(
                                target@, k) implies has_key(result@, k) by {
                                lemma_lookup_push(r_pre, entry, k);
                                if k != key@ && !has_key(t_pre, k) {
                                    assert(has_key(r_pre, k));
                                } else if k != key@ && has_key(t_pre, k) {
                                    lemma_has_key_head(t_pre, k);
                                }
                            }
                        }
                    },
                    None => {
                        proof {
                            processed = processed.push(t_pre[0]);
                            assert(cur0 =~= processed + target@);
                            assert(merged_keys(t_pre, config@) == merged_keys(target@, config@));
                            assert forall|k: Seq<char>| #[trigger] has_key(result@, k) implies
                                !has_key(target@, k) by {
                                if has_key(target@, k) {
                                    let i = key_index(target@, k);
                                    assert(t_pre[i + 1].0@ == k);
                                }
                            }
                            assert forall|k: Seq<char>|
                                #[trigger] has_key(cur0, k) && has_key(config@, k) && !has_key(
                                target@, k) implies has_key(result@, k) by {
                                if k == key@ {
                                    assert(value_of(cur0, k) == value_of(t_pre, k));
                                    assert(!has_key(config@, k));
                                } else if has_key(t_pre, k) {
                                    lemma_has_key_head(t_pre, k);
                                }
                            }
                        }
                    },
                }
            },
        }
    }
    proof {
        assert(target@.len() == 0);
        assert(merged_keys(target@, config@) =~= Seq::<Seq<char>>::empty());
        assert(entry_keys(result@) =~= entry_keys(result@) + merged_keys(target@, config@));
        assert(entry_keys(result@) == merged_keys(cur0, config@));
    }
    let n = config.len();
    let mut j: usize = 0;
    while j < n
        invariant
            config.wf(),
            result.wf(),
            distinct_keys(cur0),
            n == config@.len(),
            j <= n,
            entry_keys(result@) == merged_keys(cur0, config@) + added_keys(
                config@.take(j as int),
                cur0,
            ),
            forall|k: Seq<char>|
                #[trigger] has_key(cur0, k) && has_key(config@, k) ==> has_key(result@, k)
                    && value_of(result@, k) == merge_synthetic(
                    value_of(config@, k),
                    value_of(cur0, k),
                ) && key_string_of(result@, k) == key_string_of(cur0, k),
            forall|k: Seq<char>|
                #[trigger] has_key(config@.take(j as int), k) && !has_key(cur0, k) ==> has_key(
                    result@,
                    k,
                ) && value_of(result@, k) == fresh_synthetic(value_of(config@, k), now)
                    && key_string_of(result@, k) == key_string_of(config@, k),
            forall|k: Seq<char>|
                #[trigger] has_key(result@, k) ==> (has_key(cur0, k) && has_key(config@, k)) || (
                has_key(config@.take(j as int), k) && !has_key(cur0, k)),
        decreases n - j,
    {
        let ghost r_pre = result@;
        let e = config.entry_at(j);
        proof {
            lemma_key_index_unique(config@, e.0@, j as int);
            assert(config@.take(j as int + 1) =~= config@.take(j as int).push(config@[j as int]));
            lemma_added_keys_push(config@.take(j as int), config@[j as int], cur0);
            assert forall|k: Seq<char>| #[trigger] has_key(config@.take(j as int + 1), k) implies
                k == e.0@ || has_key(config@.take(j as int), k) by {
                let i = key_index(config@.take(j as int + 1), k);
                if i < j as int {
                    assert(config@.take(j as int)[i].0@ == k);
                }
            }
            assert forall|k: Seq<char>| #[trigger] has_key(config@.take(j as int), k) implies
                has_key(config@.take(j as int + 1), k) && has_key(config@, k) by {
                let i = key_index(config@.take(j as int), k);
                assert(config@.take(j as int + 1)[i].0@ == k);
                assert(config@[i].0@ == k);
            }
            if has_key(config@.take(j as int), e.0@) {
                let i = key_index(config@.take(j as int), e.0@);
                assert(config@[i].0@ == e.0@);
                assert(false);
            }
        }
        if !result.contains_key(&e.0) {
            proof {
                if has_key(cur0, e.0@) {
                    assert(has_key(result@, e.0@));
                }
            }
            let fresh = model::SyntheticFeature {
                ty: e.1.to_type(),
                value: model::CachedValue::Null,
                last_update: now,
            };
            let key = e.0.clone();
            let ghost entry = (key, fresh);
            result.push(key, fresh);
            proof {
                assert(entry_keys(result@) =~= entry_keys(r_pre).push(e.0@));
                assert(entry_keys(r_pre).push(e.0@) =~= merged_keys(cur0, config@) + added_keys(
                    config@.take(j as int),
                    cur0,
                ).push(e.0@));
                assert forall|k: Seq<char>|
                    #[trigger] has_key(cur0, k) && has_key(config@, k) implies has_key(result@, k)
                    && value_of(result@, k) == merge_synthetic(
                    value_of(config@, k),
                    value_of(cur0, k),
                ) && key_string_of(result@, k) == key_string_of(cur0, k) by {
                    lemma_lookup_push(r_pre, entry, k);
                }
                assert forall|k: Seq<char>|
                    #[trigger] has_key(config@.take(j as int + 1), k) && !has_key(cur0, k) implies
                    has_key(result@, k) && value_of(result@, k) == fresh_synthetic(
                    value_of(config@, k),
                    now,
                ) && key_string_of(result@, k) == key_string_of(config@, k) by {
                    lemma_lookup_push(r_pre, entry, k);
                }
                assert forall|k: Seq<char>| #[trigger] has_key(result@, k) implies (has_key(
                    cur0,
                    k,
                ) && has_key(config@, k)) || (has_key(config@.take(j as int + 1), k) && !has_key(
                    cur0,
                    k,
                )) by {
                    lemma_lookup_push(r_pre, entry, k);
                    assert(config@.take(j as int + 1)[j as int].0@ == e.0@);
                    assert(has_key(config@.take(j as int + 1), e.0@));
                }
            }
        } else {
            proof {
                assert(has_key(cur0, e.0@));
                assert(added_keys(config@.take(j as int + 1), cur0) == added_keys(
                    config@.take(j as int),
                    cur0,
                ));
            }
        }
        j = j + 1;
    }
    proof {
        assert(config@.take(n as int) =~= config@);
        assert forall|k: Seq<char>| #[trigger] has_key(result@, k) implies has_key(config@, k)
        by {}
    }
    *target = result;
}

// ---------------------------------------------------------------------------
// On-changed handlers.
// ---------------------------------------------------------------------------

/// Overwrite the definition-controlled field, keep the runtime fields.
pub open spec fn merge_changed(c: config::Code, r: model::Changed) -> model::Changed {
    model::Changed { code: c.to_code_spec(), last_log: r.last_log }
}

/// A default record: code from the definition, an empty log.
pub open spec fn fresh_changed_ok(c: config::Code, r: model::Changed) -> bool {
    r.code == c.to_code_spec() && r.last_log@ == Seq::<String>::empty()
}

/// Complete description of one on-changed-handler sync from `cur` under
/// `config` to `result`.
pub open spec fn changed_synced(
    cur: Seq<(String, model::Changed)>,
    config: Seq<(String, config::Code)>,
    result: Seq<(String, model::Changed)>,
) -> bool {
    &&& entry_keys(result) == sync_keys(cur, config)
    &&& distinct_keys(result)
    &&& forall|k: Seq<char>|
        #[trigger] has_key(cur, k) && has_key(config, k) ==> has_key(result, k) && value_of(
            result,
            k,
        ) == merge_changed(value_of(config, k), value_of(cur, k)) && key_string_of(result, k)
            == key_string_of(cur, k)
    &&& forall|k: Seq<char>|
        #[trigger] has_key(config, k) && !has_key(cur, k) ==> has_key(result, k)
            && fresh_changed_ok(value_of(config, k), value_of(result, k)) && key_string_of(
            result,
            k,
        ) == key_string_of(config, k)
    &&& forall|k: Seq<char>| #[trigger] has_key(result, k) ==> has_key(config, k)
}

/// Sync the on-changed handler map of a Thing with the template's
/// on-changed section.
pub fn sync_changed(config: &OrderedMap<config::Code>, target: &mut OrderedMap<model::Changed>)
    requires
        config.wf(),
        old(target).wf(),
    ensures
        final(target).wf(),
        changed_synced(old(target)@, config@, final(target)@),
{
    let ghost cur0 = old(target)@;
    let mut result: OrderedMap<model::Changed> = OrderedMap::new();
    let ghost mut processed: Seq<(String, model::Changed)> = Seq::empty();
    loop
        invariant
            config.wf(),
            target.wf(),
            result.wf(),
            distinct_keys(cur0),
            cur0 == processed + target@,
            merged_keys(cur0, config@) == entry_keys(result@) + merged_keys(target@, config@),
            forall|k: Seq<char>| #[trigger] has_key(result@, k) ==> !has_key(target@, k),
            forall|k: Seq<char>|
                #[trigger] has_key(result@, k) ==> has_key(cur0, k) && has_key(config@, k)
                    && value_of(result@, k) == merge_changed(
                    value_of(config@, k),
                    value_of(cur0, k),
                ) && key_string_of(result@, k) == key_string_of(cur0, k),
            forall|k: Seq<char>|
                #[trigger] has_key(cur0, k) && has_key(config@, k) && !has_key(target@, k)
                    ==> has_key(result@, k),
        ensures
            target@.len() == 0,
        decreases target@.len(),
    {
        let ghost t_pre = target@;
        let ghost r_pre = result@;
        match target.remove_first() {
            None => {
                break ;
            },
            Some((key, value)) => {
                proof {
                    lemma_key_index_unique(t_pre, key@, 0);
                    lemma_lookup_concat(processed, t_pre, key@);
                }
                match config.get(&key) {
                    Some(c) => {
                        let merged = model::Changed {
                            code: c.to_code(),
                            last_log: value.last_log,
                        };
                        proof {
                            assert(!has_key(r_pre, key@));
                        }
                        let ghost entry = (key, merged);
                        result.push(key, merged);
                        proof {
                            processed = processed.push(t_pre[0]);
                            assert(cur0 =~= processed + target@);
                            assert(merged_keys(t_pre, config@) == seq![key@] + merged_keys(
                                target@,
                                config@,
                            ));
                            assert(entry_keys(result@) =~= entry_keys(r_pre).push(key@));
                            assert(entry_keys(r_pre) + merged_keys(t_pre, config@)
                                =~= entry_keys(result@) + merged_keys(target@, config@));
                            assert forall|k: Seq<char>| #[trigger] has_key(result@, k) implies
                                !has_key(target@, k) by {
                                lemma_lookup_push(r_pre, entry, k);
                                if k == key@ {
                                    if has_key(target@, k) {
                                        let i = key_index(target@, k);
                                        assert(t_pre[i + 1].0@ == k);
                                    }
                                } else {
                                    if has_key(target@, k) {
                                        let i = key_index(target@, k);
                                        assert(t_pre[i + 1].0@ == k);
                                    }
                                }
                            }
                            assert forall|k: Seq<char>| #[trigger] has_key(result@, k) implies
                                has_key(cur0, k) && has_key(config@, k) && value_of(result@, k)
                                == merge_changed(value_of(config@, k), value_of(cur0, k))
                                && key_string_of(result@, k) == key_string_of(cur0, k) by {
                                lemma_lookup_push(r_pre, entry, k);
                            }
                            assert forall|k: Seq<char>|
                                #[trigger] has_key(cur0, k) && has_key(config@, k) && !has_key(
                                target@, k) implies has_key(result@, k) by {
                                lemma_lookup_push(r_pre, entry, k);
                                if k != key@ && !has_key(t_pre, k) {
                                    assert(has_key(r_pre, k));
                                } else if k != key@ && has_key(t_pre, k) {
                                    lemma_has_key_head(t_pre, k);
                                }
                            }
                        }
                    },
                    None => {
                        proof {
                            processed = processed.push(t_pre[0]);
                            assert(cur0 =~= processed + target@);
                            assert(merged_keys(t_pre, config@) == merged_keys(target@, config@));
                            assert forall|k: Seq<char>| #[trigger] has_key(result@, k) implies
                                !has_key(target@, k) by {
                                if has_key(target@, k) {
                                    let i = key_index(target@, k);
                                    assert(t_pre[i + 1].0@ == k);
                                }
                            }
                            assert forall|k: Seq<char>|
                                #[trigger] has_key(cur0, k) && has_key(config@, k) && !has_key(
                                target@, k) implies has_key(result@, k) by {
                                if k == key@ {
                                    assert(value_of(cur0, k) == value_of(t_pre, k));
                                    assert(!has_key(config@, k));
                                } else if has_key(t_pre, k) {
                                    lemma_has_key_head(t_pre, k);
                                }
                            }
                        }
                    },
                }
            },
        }
    }
    proof {
        assert(target@.len() == 0);
        assert(merged_keys(target@, config@) =~= Seq::<Seq<char>>::empty());
        assert(entry_keys(result@) =~= entry_keys(result@) + merged_keys(target@, config@));
        assert(entry_keys(result@) == merged_keys(cur0, config@));
    }
    let n = config.len();
    let mut j: usize = 0;
    while j < n
        invariant
            config.wf(),
            result.wf(),
            distinct_keys(cur0),
            n == config@.len(),
            j <= n,
            entry_keys(result@) == merged_keys(cur0, config@) + added_keys(
                config@.take(j as int),
                cur0,
            ),
            forall|k: Seq<char>|
                #[trigger] has_key(cur0, k) && has_key(config@, k) ==> has_key(result@, k)
                    && value_of(result@, k) == merge_changed(
                    value_of(config@, k),
                    value_of(cur0, k),
                ) && key_string_of(result@, k) == key_string_of(cur0, k),
            forall|k: Seq<char>|
                #[trigger] has_key(config@.take(j as int), k) && !has_key(cur0, k) ==> has_key(
                    result@,
                    k,
                ) && fresh_changed_ok(value_of(config@, k), value_of(result@, k))
                    && key_string_of(result@, k) == key_string_of(config@, k),
            forall|k: Seq<char>|
                #[trigger] has_key(result@, k) ==> (has_key(cur0, k) && has_key(config@, k)) || (
                has_key(config@.take(j as int), k) && !has_key(cur0, k)),
        decreases n - j,
    {
        let ghost r_pre = result@;
        let e = config.entry_at(j);
        proof {
            lemma_key_index_unique(config@, e.0@, j as int);
            assert(config@.take(j as int + 1) =~= config@.take(j as int).push(config@[j as int]));
            lemma_added_keys_push(config@.take(j as int), config@[j as int], cur0);
            assert forall|k: Seq<char>| #[trigger] has_key(config@.take(j as int + 1), k) implies
                k == e.0@ || has_key(config@.take(j as int), k) by {
                let i = key_index(config@.take(j as int + 1), k);
                if i < j as int {
                    assert(config@.take(j as int)[i].0@ == k);
                }
            }
            assert forall|k: Seq<char>| #[trigger] has_key(config@.take(j as int), k) implies
                has_key(config@.take(j as int + 1), k) && has_key(config@, k) by {
                let i = key_index(config@.take(j as int), k);
                assert(config@.take(j as int + 1)[i].0@ == k);
                assert(config@[i].0@ == k);
            }
            if has_key(config@.take(j as int), e.0@) {
                let i = key_index(config@.take(j as int), e.0@);
                assert(config@[i].0@ == e.0@);
                assert(false);
            }
        }
        if !result.contains_key(&e.0) {
            proof {
                if has_key(cur0, e.0@) {
                    assert(has_key(result@, e.0@));
                }
            }
            let fresh = model::Changed { code: e.1.to_code(), last_log: Vec::new() };
            let key = e.0.clone();
            let ghost entry = (key, fresh);
            result.push(key, fresh);
            proof {
                assert(entry_keys(result@) =~= entry_keys(r_pre).push(e.0@));
                assert(entry_keys(r_pre).push(e.0@) =~= merged_keys(cur0, config@) + added_keys(
                    config@.take(j as int),
                    cur0,
                ).push(e.0@));
                assert forall|k: Seq<char>|
                    #[trigger] has_key(cur0, k) && has_key(config@, k) implies has_key(result@, k)
                    && value_of(result@, k) == merge_changed(
                    value_of(config@, k),
                    value_of(cur0, k),
                ) && key_string_of(result@, k) == key_string_of(cur0, k) by {
                    lemma_lookup_push(r_pre, entry, k);
                }
                assert forall|k: Seq<char>|
                    #[trigger] has_key(config@.take(j as int + 1), k) && !has_key(cur0, k) implies
                    has_key(result@, k) && fresh_changed_ok(
                    value_of(config@, k),
                    value_of(result@, k),
                ) && key_string_of(result@, k) == key_string_of(config@, k) by {
                    lemma_lookup_push(r_pre, entry, k);
                }
                assert forall|k: Seq<char>| #[trigger] has_key(result@, k) implies (has_key(
                    cur0,
                    k,
                ) && has_key(config@, k)) || (has_key(config@.take(j as int + 1), k) && !has_key(
                    cur0,
                    k,
                )) by {
                    lemma_lookup_push(r_pre, entry, k);
                    assert(config@.take(j as int + 1)[j as int].0@ == e.0@);
                    assert(has_key(config@.take(j as int + 1), e.0@));
                }
            }
        } else {
            proof {
                assert(has_key(cur0, e.0@));
                assert(added_keys(config@.take(j as int + 1), cur0) == added_keys(
                    config@.take(j as int),
                    cur0,
                ));
            }
        }
        j = j + 1;
    }
    proof {
        assert(config@.take(n as int) =~= config@);
        assert forall|k: Seq<char>| #[trigger] has_key(result@, k) implies has_key(config@, k)
        by {}
    }
    *target = result;
}

// ---------------------------------------------------------------------------
// On-deleting handlers.
// ---------------------------------------------------------------------------

/// An on-deleting record has no runtime fields: merging and creating both
/// yield the record the definition prescribes.
pub open spec fn merge_deleting(c: config::Code, r: model::Deleting) -> model::Deleting {
    model::Deleting { code: c.to_code_spec() }
}

/// A default record: code from the definition.
pub open spec fn fresh_deleting(c: config::Code) -> model::Deleting {
    model::Deleting { code: c.to_code_spec() }
}

/// Complete description of one on-deleting-handler sync from `cur` under
/// `config` to `result`.
pub open spec fn deleting_synced(
    cur: Seq<(String, model::Deleting)>,
    config: Seq<(String, config::Code)>,
    result: Seq<(String, model::Deleting)>,
) -> bool {
    &&& entry_keys(result) == sync_keys(cur, config)
    &&& distinct_keys(result)
    &&& forall|k: Seq<char>|
        #[trigger] has_key(cur, k) && has_key(config, k) ==> has_key(result, k) && value_of(
            result,
            k,
        ) == merge_deleting(value_of(config, k), value_of(cur, k)) && key_string_of(result, k)
            == key_string_of(cur, k)
    &&& forall|k: Seq<char>|
        #[trigger] has_key(config, k) && !has_key(cur, k) ==> has_key(result, k) && value_of(
            result,
            k,
        ) == fresh_deleting(value_of(config, k)) && key_string_of(result, k)
            == key_string_of(config, k)
    &&& forall|k: Seq<char>| #[trigger] has_key(result, k) ==> has_key(config, k)
}

/// Sync the on-deleting handler map of a Thing with the template's
/// on-deleting section.
pub fn sync_deleting(
    config: &OrderedMap<config::Code>,
    target: &mut OrderedMap<model::Deleting>,
)
    requires
        config.wf(),
        old(target).wf(),
    ensures
        final(target).wf(),
        deleting_synced(old(target)@, config@, final(target)@),
{
    let ghost cur0 = old(target)@;
    let mut result: OrderedMap<model::Deleting> = OrderedMap::new();
    let ghost mut processed: Seq<(String, model::Deleting)> = Seq::empty();
    loop
        invariant
            config.wf(),
            target.wf(),
            result.wf(),
            distinct_keys(cur0),
            cur0 == processed + target@,
            merged_keys(cur0, config@) == entry_keys(result@) + merged_keys(target@, config@),
            forall|k: Seq<char>| #[trigger] has_key(result@, k) ==> !has_key(target@, k),
            forall|k: Seq<char>|
                #[trigger] has_key(result@, k) ==> has_key(cur0, k) && has_key(config@, k)
                    && value_of(result@, k) == merge_deleting(
                    value_of(config@, k),
                    value_of(cur0, k),
                ) && key_string_of(result@, k) == key_string_of(cur0, k),
            forall|k: Seq<char>|
                #[trigger] has_key(cur0, k) && has_key(config@, k) && !has_key(target@, k)
                    ==> has_key(result@, k),
        ensures
            target@.len() == 0,
        decreases target@.len(),
    {
        let ghost t_pre = target@;
        let ghost r_pre = result@;
        match target.remove_first() {
            None => {
                break ;
            },
            Some((key, value)) => {
                proof {
                    lemma_key_index_unique(t_pre, key@, 0);
                    lemma_lookup_concat(processed, t_pre, key@);
                }
                match config.get(&key) {
                    Some(c) => {
                        let merged = model::Deleting { code: c.to_code() };
                        proof {
                            assert(!has_key(r_pre, key@));
                        }
                        let ghost entry = (key, merged);
                        result.push(key, merged);
                        proof {
                            processed = processed.push(t_pre[0]);
                            assert(cur0 =~= processed + target@);
                            assert(merged_keys(t_pre, config@) == seq![key@] + merged_keys(
                                target@,
                                config@,
                            ));
                            assert(entry_keys(result@) =~= entry_keys(r_pre).push(key@));
                            assert(entry_keys(r_pre) + merged_keys(t_pre, config@)
                                =~= entry_keys(result@) + merged_keys(target@, config@));
                            assert forall|k: Seq<char>| #[trigger] has_key(result@, k) implies
                                !has_key(target@, k) by {
                                lemma_lookup_push(r_pre, entry, k);
                                if k == key@ {
                                    if has_key(target@, k) {
                                        let i = key_index(target@, k);
                                        assert(t_pre[i + 1].0@ == k);
                                    }
                                } else {
                                    if has_key(target@, k) {
                                        let i = key_index(target@, k);
                                        assert(t_pre[i + 1].0@ == k);
                                    }
                                }
                            }
                            assert forall|k: Seq<char>| #[trigger] has_key(result@, k) implies
                                has_key(cur0, k) && has_key(config@, k) && value_of(result@, k)
                                == merge_deleting(value_of(config@, k), value_of(cur0, k))
                                && key_string_of(result@, k) == key_string_of(cur0, k) by {
                                lemma_lookup_push(r_pre, entry, k);
                            }
                            assert forall|k: Seq<char>|
                                #[trigger] has_key(cur0, k) && has_key(config@, k) && !has_key(
                                target@, k) implies has_key(result@, k) by {
                                lemma_lookup_push(r_pre, entry, k);
                                if k != key@ && !has_key(t_pre, k) {
                                    assert(has_key(r_pre, k));
                                } else if k != key@ && has_key(t_pre, k) {
                                    lemma_has_key_head(t_pre, k);
                                }
                            }
                        }
                    },
                    None => {
                        proof {
                            processed = processed.push(t_pre[0]);
                            assert(cur0 =~= processed + target@);
                            assert(merged_keys(t_pre, config@) == merged_keys(target@, config@));
                            assert forall|k: Seq<char>| #[trigger] has_key(result@, k) implies
                                !has_key(target@, k) by {
                                if has_key(target@, k) {
                                    let i = key_index(target@, k);
                                    assert(t_pre[i + 1].0@ == k);
                                }
                            }
                            assert forall|k: Seq<char>|
                                #[trigger] has_key(cur0, k) && has_key(config@, k) && !has_key(
                                target@, k) implies has_key(result@, k) by {
                                if k == key@ {
                                    assert(value_of(cur0, k) == value_of(t_pre, k));
                                    assert(!has_key(config@, k));
                                } else if has_key(t_pre, k) {
                                    lemma_has_key_head(t_pre, k);
                                }
                            }
                        }
                    },
                }
            },
        }
    }
    proof {
        assert(target@.len() == 0);
        assert(merged_keys(target@, config@) =~= Seq::<Seq<char>>::empty());
        assert(entry_keys(result@) =~= entry_keys(result@) + merged_keys(target@, config@));
        assert(entry_keys(result@) == merged_keys(cur0, config@));
    }
    let n = config.len();
    let mut j: usize = 0;
    while j < n
        invariant
            config.wf(),
            result.wf(),
            distinct_keys(cur0),
            n == config@.len(),
            j <= n,
            entry_keys(result@) == merged_keys(cur0, config@) + added_keys(
                config@.take(j as int),
                cur0,
            ),
            forall|k: Seq<char>|
                #[trigger] has_key(cur0, k) && has_key(config@, k) ==> has_key(result@, k)
                    && value_of(result@, k) == merge_deleting(
                    value_of(config@, k),
                    value_of(cur0, k),
                ) && key_string_of(result@, k) == key_string_of(cur0, k),
            forall|k: Seq<char>|
                #[trigger] has_key(config@.take(j as int), k) && !has_key(cur0, k) ==> has_key(
                    result@,
                    k,
                ) && value_of(result@, k) == fresh_deleting(value_of(config@, k))
                    && key_string_of(result@, k) == key_string_of(config@, k),
            forall|k: Seq<char>|
                #[trigger] has_key(result@, k) ==> (has_key(cur0, k) && has_key(config@, k)) || (
                has_key(config@.take(j as int), k) && !has_key(cur0, k)),
        decreases n - j,
    {
        let ghost r_pre = result@;
        let e = config.entry_at(j);
        proof {
            lemma_key_index_unique(config@, e.0@, j as int);
            assert(config@.take(j as int + 1) =~= config@.take(j as int).push(config@[j as int]));
            lemma_added_keys_push(config@.take(j as int), config@[j as int], cur0);
            assert forall|k: Seq<char>| #[trigger] has_key(config@.take(j as int + 1), k) implies
                k == e.0@ || has_key(config@.take(j as int), k) by {
                let i = key_index(config@.take(j as int + 1), k);
                if i < j as int {
                    assert(config@.take(j as int)[i].0@ == k);
                }
            }
            assert forall|k: Seq<char>| #[trigger] has_key(config@.take(j as int), k) implies
                has_key(config@.take(j as int + 1), k) && has_key(config@, k) by {
                let i = key_index(config@.take(j as int), k);
                assert(config@.take(j as int + 1)[i].0@ == k);
                assert(config@[i].0@ == k);
            }
            if has_key(config@.take(j as int), e.0@) {
                let i = key_index(config@.take(j as int), e.0@);
                assert(config@[i].0@ == e.0@);
                assert(false);
            }
        }
        if !result.contains_key(&e.0) {
            proof {
                if has_key(cur0, e.0@) {
                    assert(has_key(result@, e.0@));
                }
            }
            let fresh = model::Deleting { code: e.1.to_code() };
            let key = e.0.clone();
            let ghost entry = (key, fresh);
            result.push(key, fresh);
            proof {
                assert(entry_keys(result@) =~= entry_keys(r_pre).push(e.0@));
                assert(entry_keys(r_pre).push(e.0@) =~= merged_keys(cur0, config@) + added_keys(
                    config@.take(j as int),
                    cur0,
                ).push(e.0@));
                assert forall|k: Seq<char>|
                    #[trigger] has_key(cur0, k) && has_key(config@, k) implies has_key(result@, k)
                    && value_of(result@, k) == merge_deleting(
                    value_of(config@, k),
                    value_of(cur0, k),
                ) && key_string_of(result@, k) == key_string_of(cur0, k) by {
                    lemma_lookup_push(r_pre, entry, k);
                }
                assert forall|k: Seq<char>|
                    #[trigger] has_key(config@.take(j as int + 1), k) && !has_key(cur0, k) implies
                    has_key(result@, k) && value_of(result@, k) == fresh_deleting(
                    value_of(config@, k),
                ) && key_string_of(result@, k) == key_string_of(config@, k) by {
                    lemma_lookup_push(r_pre, entry, k);
                }
                assert forall|k: Seq<char>| #[trigger] has_key(result@, k) implies (has_key(
                    cur0,
                    k,
                ) && has_key(config@, k)) || (has_key(config@.take(j as int + 1), k) && !has_key(
                    cur0,
                    k,
                )) by {
                    lemma_lookup_push(r_pre, entry, k);
                    assert(config@.take(j as int + 1)[j as int].0@ == e.0@);
                    assert(has_key(config@.take(j as int + 1), e.0@));
                }
            }
        } else {
            proof {
                assert(has_key(cur0, e.0@));
                assert(added_keys(config@.take(j as int + 1), cur0) == added_keys(
                    config@.take(j as int),
                    cur0,
                ));
            }
        }
        j = j + 1;
    }
    proof {
        assert(config@.take(n as int) =~= config@);
        assert forall|k: Seq<char>| #[trigger] has_key(result@, k) implies has_key(config@, k)
        by {}
    }
    *target = result;
}

// ---------------------------------------------------------------------------
// Timers.
// ---------------------------------------------------------------------------

/// Overwrite the definition-controlled fields (code and period), keep the
/// runtime fields.
pub open spec fn merge_timer(c: config::Timer, r: model::Timer) -> model::Timer {
    model::Timer {
        code: c.code.to_code_spec(),
        period: c.period,
        stopped: r.stopped,
        last_started: r.last_started,
        last_run: r.last_run,
        last_log: r.last_log,
        initial_delay: r.initial_delay,
    }
}

/// A default record: code and period from the definition, every runtime
/// field at its initial value.
pub open spec fn fresh_timer_ok(c: config::Timer, r: model::Timer) -> bool {
    &&& r.code == c.code.to_code_spec()
    &&& r.period == c.period
    &&& r.stopped == false
    &&& r.last_started is None
    &&& r.last_run is None
    &&& r.last_log@ == Seq::<String>::empty()
    &&& r.initial_delay is None
}

/// Complete description of one timer sync from `cur` under `config` to
/// `result`.
pub open spec fn timers_synced(
    cur: Seq<(String, model::Timer)>,
    config: Seq<(String, config::Timer)>,
    result: Seq<(String, model::Timer)>,
) -> bool {
    &&& entry_keys(result) == sync_keys(cur, config)
    &&& distinct_keys(result)
    &&& forall|k: Seq<char>|
        #[trigger] has_key(cur, k) && has_key(config, k) ==> has_key(result, k) && value_of(
            result,
            k,
        ) == merge_timer(value_of(config, k), value_of(cur, k)) && key_string_of(result, k)
            == key_string_of(cur, k)
    &&& forall|k: Seq<char>|
        #[trigger] has_key(config, k) && !has_key(cur, k) ==> has_key(result, k)
            && fresh_timer_ok(value_of(config, k), value_of(result, k)) && key_string_of(
            result,
            k,
        ) == key_string_of(config, k)
    &&& forall|k: Seq<char>| #[trigger] has_key(result, k) ==> has_key(config, k)
}

/// Sync the timer map of a Thing with the template's timer section.
pub fn sync_timers(config: &OrderedMap<config::Timer>, target: &mut OrderedMap<model::Timer>)
    requires
        config.wf(),
        old(target).wf(),
    ensures
        final(target).wf(),
        timers_synced(old(target)@, config@, final(target)@),
{
    let ghost cur0 = old(target)@;
    let mut result: OrderedMap<model::Timer> = OrderedMap::new();
    let ghost mut processed: Seq<(String, model::Timer)> = Seq::empty();
    loop
        invariant
            config.wf(),
            target.wf(),
            result.wf(),
            distinct_keys(cur0),
            cur0 == processed + target@,
            merged_keys(cur0, config@) == entry_keys(result@) + merged_keys(target@, config@),
            forall|k: Seq<char>| #[trigger] has_key(result@, k) ==> !has_key(target@, k),
            forall|k: Seq<char>|
                #[trigger] has_key(result@, k) ==> has_key(cur0, k) && has_key(config@, k)
                    && value_of(result@, k) == merge_timer(
                    value_of(config@, k),
                    value_of(cur0, k),
                ) && key_string_of(result@, k) == key_string_of(cur0, k),
            forall|k: Seq<char>|
                #[trigger] has_key(cur0, k) && has_key(config@, k) && !has_key(target@, k)
                    ==> has_key(result@, k),
        ensures
            target@.len() == 0,
        decreases target@.len(),
    {
        let ghost t_pre = target@;
        let ghost r_pre = result@;
        match target.remove_first() {
            None => {
                break ;
            },
            Some((key, value)) => {
                proof {
                    lemma_key_index_unique(t_pre, key@, 0);
                    lemma_lookup_concat(processed, t_pre, key@);
                }
                match config.get(&key) {
                    Some(c) => {
                        let merged = model::Timer {
                            code: c.code.to_code(),
                            period: c.period,
                            stopped: value.stopped,
                            last_started: value.last_started,
                            last_run: value.last_run,
                            last_log: value.last_log,
                            initial_delay: value.initial_delay,
                        };
                        proof {
                            assert(!has_key(r_pre, key@));
                        }
                        let ghost entry = (key, merged);
                        result.push(key, merged);
                        proof {
                            processed = processed.push(t_pre[0]);
                            assert(cur0 =~= processed + target@);
                            assert(merged_keys(t_pre, config@) == seq![key@] + merged_keys(
                                target@,
                                config@,
                            ));
                            assert(entry_keys(result@) =~= entry_keys(r_pre).push(key@));
                            assert(entry_keys(r_pre) + merged_keys(t_pre, config@)
                                =~= entry_keys(result@) + merged_keys(target@, config@));
                            assert forall|k: Seq<char>| #[trigger] has_key(result@, k) implies
                                !has_key(target@, k) by {
                                lemma_lookup_push(r_pre, entry, k);
                                if k == key@ {
                                    if has_key(target@, k) {
                                        let i = key_index(target@, k);
                                        assert(t_pre[i + 1].0@ == k);
                                    }
                                } else {
                                    if has_key(target@, k) {
                                        let i = key_index(target@, k);
                                        assert(t_pre[i + 1].0@ == k);
                                    }
                                }
                            }
                            assert forall|k: Seq<char>| #[trigger] has_key(result@, k) implies
                                has_key(cur0, k) && has_key(config@, k) && value_of(result@, k)
                                == merge_timer(value_of(config@, k), value_of(cur0, k))
                                && key_string_of(result@, k) == key_string_of(cur0, k) by {
                                lemma_lookup_push(r_pre, entry, k);
                            }
                            assert forall|k: Seq<char>|
                                #[trigger] has_key(cur0, k) && has_key(config@, k) && !has_key(
                                target@, k) implies has_key(result@, k) by {
                                lemma_lookup_push(r_pre, entry, k);
                                if k != key@ && !has_key(t_pre, k) {
                                    assert(has_key(r_pre, k));
                                } else if k != key@ && has_key(t_pre, k) {
                                    lemma_has_key_head(t_pre, k);
                                }
                            }
                        }
                    },
                    None => {
                        proof {
                            processed = processed.push(t_pre[0]);
                            assert(cur0 =~= processed + target@);
                            assert(merged_keys(t_pre, config@) == merged_keys(target@, config@));
                            assert forall|k: Seq<char>| #[trigger] has_key(result@, k) implies
                                !has_key(target@, k) by {
                                if has_key(target@, k) {
                                    let i = key_index(target@, k);
                                    assert(t_pre[i + 1].0@ == k);
                                }
                            }
                            assert forall|k: Seq<char>|
                                #[trigger] has_key(cur0, k) && has_key(config@, k) && !has_key(
                                target@, k) implies has_key(result@, k) by {
                                if k == key@ {
                                    assert(value_of(cur0, k) == value_of(t_pre, k));
                                    assert(!has_key(config@, k));
                                } else if has_key(t_pre, k) {
                                    lemma_has_key_head(t_pre, k);
                                }
                            }
                        }
                    },
                }
            },
        }
    }
    proof {
        assert(target@.len() == 0);
        assert(merged_keys(target@, config@) =~= Seq::<Seq<char>>::empty());
        assert(entry_keys(result@) =~= entry_keys(result@) + merged_keys(target@, config@));
        assert(entry_keys(result@) == merged_keys(cur0, config@));
    }
    let n = config.len();
    let mut j: usize = 0;
    while j < n
        invariant
            config.wf(),
            result.wf(),
            distinct_keys(cur0),
            n == config@.len(),
            j <= n,
            entry_keys(result@) == merged_keys(cur0, config@) + added_keys(
                config@.take(j as int),
                cur0,
            ),
            forall|k: Seq<char>|
                #[trigger] has_key(cur0, k) && has_key(config@, k) ==> has_key(result@, k)
                    && value_of(result@, k) == merge_timer(
                    value_of(config@, k),
                    value_of(cur0, k),
                ) && key_string_of(result@, k) == key_string_of(cur0, k),
            forall|k: Seq<char>|
                #[trigger] has_key(config@.take(j as int), k) && !has_key(cur0, k) ==> has_key(
                    result@,
                    k,
                ) && fresh_timer_ok(value_of(config@, k), value_of(result@, k))
                    && key_string_of(result@, k) == key_string_of(config@, k),
            forall|k: Seq<char>|
                #[trigger] has_key(result@, k) ==> (has_key(cur0, k) && has_key(config@, k)) || (
                has_key(config@.take(j as int), k) && !has_key(cur0, k)),
        decreases n - j,
    {
        let ghost r_pre = result@;
        let e = config.entry_at(j);
        proof {
            lemma_key_index_unique(config@, e.0@, j as int);
            assert(config@.take(j as int + 1) =~= config@.take(j as int).push(config@[j as int]));
            lemma_added_keys_push(config@.take(j as int), config@[j as int], cur0);
            assert forall|k: Seq<char>| #[trigger] has_key(config@.take(j as int + 1), k) implies
                k == e.0@ || has_key(config@.take(j as int), k) by {
                let i = key_index(config@.take(j as int + 1), k);
                if i < j as int {
                    assert(config@.take(j as int)[i].0@ == k);
                }
            }
            assert forall|k: Seq<char>| #[trigger] has_key(config@.take(j as int), k) implies
                has_key(config@.take(j as int + 1), k) && has_key(config@, k) by {
                let i = key_index(config@.take(j as int), k);
                assert(config@.take(j as int + 1)[i].0@ == k);
                assert(config@[i].0@ == k);
            }
            if has_key(config@.take(j as int), e.0@) {
                let i = key_index(config@.take(j as int), e.0@);
                assert(config@[i].0@ == e.0@);
                assert(false);
            }
        }
        if !result.contains_key(&e.0) {
            proof {
                if has_key(cur0, e.0@) {
                    assert(has_key(result@, e.0@));
                }
            }
            let fresh = model::Timer {
                code: e.1.code.to_code(),
                period: e.1.period,
                stopped: false,
                last_started: None,
                last_run: None,
                last_log: Vec::new(),
                initial_delay: None,
            };
            let key = e.0.clone();
            let ghost entry = (key, fresh);
            result.push(key, fresh);
            proof {
                assert(entry_keys(result@) =~= entry_keys(r_pre).push(e.0@));
                assert(entry_keys(r_pre).push(e.0@) =~= merged_keys(cur0, config@) + added_keys(
                    config@.take(j as int),
                    cur0,
                ).push(e.0@));
                assert forall|k: Seq<char>|
                    #[trigger] has_key(cur0, k) && has_key(config@, k) implies has_key(result@, k)
                    && value_of(result@, k) == merge_timer(
                    value_of(config@, k),
                    value_of(cur0, k),
                ) && key_string_of(result@, k) == key_string_of(cur0, k) by {
                    lemma_lookup_push(r_pre, entry, k);
                }
                assert forall|k: Seq<char>|
                    #[trigger] has_key(config@.take(j as int + 1), k) && !has_key(cur0, k) implies
                    has_key(result@, k) && fresh_timer_ok(
                    value_of(config@, k),
                    value_of(result@, k),
                ) && key_string_of(result@, k) == key_string_of(config@, k) by {
                    lemma_lookup_push(r_pre, entry, k);
                }
                assert forall|k: Seq<char>| #[trigger] has_key(result@, k) implies (has_key(
                    cur0,
                    k,
                ) && has_key(config@, k)) || (has_key(config@.take(j as int + 1), k) && !has_key(
                    cur0,
                    k,
                )) by {
                    lemma_lookup_push(r_pre, entry, k);
                    assert(config@.take(j as int + 1)[j as int].0@ == e.0@);
                    assert(has_key(config@.take(j as int + 1), e.0@));
                }
            }
        } else {
            proof {
                assert(has_key(cur0, e.0@));
                assert(added_keys(config@.take(j as int + 1), cur0) == added_keys(
                    config@.take(j as int),
                    cur0,
                ));
            }
        }
        j = j + 1;
    }
    proof {
        assert(config@.take(n as int) =~= config@);
        assert forall|k: Seq<char>| #[trigger] has_key(result@, k) implies has_key(config@, k)
        by {}
    }
    *target = result;
}


// ---------------------------------------------------------------------------
// Laws of the differencer.
// ---------------------------------------------------------------------------

/// When every current key is a template key, the survivors are the whole
/// current map, in order.
proof fn lemma_merged_keys_all<R, C>(cur: Seq<(String, R)>, config: Seq<(String, C)>)
    requires
        forall|k: Seq<char>| #[trigger] has_key(cur, k) ==> has_key(config, k),
    ensures
        merged_keys(cur, config) == entry_keys(cur),
    decreases cur.len(),
{
    if cur.len() == 0 {
        assert(merged_keys(cur, config) =~= entry_keys(cur));
    } else {
        assert forall|k: Seq<char>| #[trigger] has_key(cur.drop_first(), k) implies has_key(
            config,
            k,
        ) by {
            let i = key_index(cur.drop_first(), k);
            assert(cur[i + 1].0@ == k);
            assert(has_key(cur, k));
        }
        lemma_merged_keys_all(cur.drop_first(), config);
        assert(cur[0].0@ == cur[0].0@);
        assert(has_key(cur, cur[0].0@));
        assert(merged_keys(cur, config) == seq![cur[0].0@] + entry_keys(cur.drop_first()));
        assert(seq![cur[0].0@] + entry_keys(cur.drop_first()) =~= entry_keys(cur));
    }
}

/// When every template key has a current entry, nothing is added.
proof fn lemma_added_keys_none<C, R>(config: Seq<(String, C)>, cur: Seq<(String, R)>)
    requires
        forall|k: Seq<char>| #[trigger] has_key(config, k) ==> has_key(cur, k),
    ensures
        added_keys(config, cur) == Seq::<Seq<char>>::empty(),
    decreases config.len(),
{
    if config.len() > 0 {
        assert forall|k: Seq<char>| #[trigger] has_key(config.drop_first(), k) implies has_key(
            cur,
            k,
        ) by {
            let i = key_index(config.drop_first(), k);
            assert(config[i + 1].0@ == k);
            assert(has_key(config, k));
        }
        lemma_added_keys_none(config.drop_first(), cur);
        assert(has_key(config, config[0].0@));
        assert(has_key(cur, config[0].0@));
    }
}

/// When exactly one current key (`kstar`) left the template, the survivors
/// are the current entries with that one removed, in order.
proof fn lemma_merged_keys_except<R, C>(
    cur: Seq<(String, R)>,
    config: Seq<(String, C)>,
    kstar: Seq<char>,
)
    requires
        distinct_keys(cur),
        has_key(cur, kstar),
        !has_key(config, kstar),
        forall|k: Seq<char>| #[trigger] has_key(cur, k) && k != kstar ==> has_key(config, k),
    ensures
        merged_keys(cur, config) == entry_keys(cur).remove(key_index(cur, kstar)),
    decreases cur.len(),
{
    assert forall|k: Seq<char>| #[trigger] has_key(cur.drop_first(), k) implies has_key(cur, k)
    by {
        let i = key_index(cur.drop_first(), k);
        assert(cur[i + 1].0@ == k);
    }
    if cur[0].0@ == kstar {
        lemma_key_index_unique(cur, kstar, 0);
        assert forall|k: Seq<char>| #[trigger] has_key(cur.drop_first(), k) implies has_key(
            config,
            k,
        ) by {
            if k == kstar {
                let i = key_index(cur.drop_first(), k);
                assert(cur[i + 1].0@ == kstar);
                assert(cur[0].0@ == cur[i + 1].0@);
                assert(false);
            }
        }
        lemma_merged_keys_all(cur.drop_first(), config);
        assert(merged_keys(cur, config) == entry_keys(cur.drop_first()));
        assert(entry_keys(cur.drop_first()) =~= entry_keys(cur).remove(0));
    } else {
        assert(has_key(cur.drop_first(), kstar)) by {
            let i = key_index(cur, kstar);
            assert(cur.drop_first()[i - 1].0@ == kstar);
        }
        lemma_merged_keys_except(cur.drop_first(), config, kstar);
        let i = key_index(cur.drop_first(), kstar);
        lemma_key_index(cur.drop_first(), kstar);
        lemma_key_index_unique(cur, kstar, i + 1);
        assert(has_key(cur, cur[0].0@));
        assert(has_key(config, cur[0].0@));
        assert(merged_keys(cur, config) == seq![cur[0].0@] + entry_keys(cur.drop_first()).remove(
            i,
        ));
        assert(seq![cur[0].0@] + entry_keys(cur.drop_first()).remove(i) =~= entry_keys(
            cur,
        ).remove(i + 1));
    }
}

/// A current map that is consistent with the template: same key set, and
/// every definition-controlled field already as prescribed.
pub open spec fn synthetics_consistent(
    cur: Seq<(String, model::SyntheticFeature)>,
    config: Seq<(String, config::Synthetic)>,
) -> bool {
    &&& forall|k: Seq<char>| #[trigger] has_key(cur, k) ==> has_key(config, k)
    &&& forall|k: Seq<char>| #[trigger] has_key(config, k) ==> has_key(cur, k)
    &&& forall|k: Seq<char>| #[trigger] has_key(cur, k) ==> value_of(cur, k) == merge_synthetic(
        value_of(config, k),
        value_of(cur, k),
    )
}

/// One sync leaves the map consistent with the template.
pub proof fn lemma_sync_synthetics_consistent(
    cur: Seq<(String, model::SyntheticFeature)>,
    config: Seq<(String, config::Synthetic)>,
    result: Seq<(String, model::SyntheticFeature)>,
    now: i64,
)
    requires
        distinct_keys(cur),
        distinct_keys(config),
        synthetics_synced(cur, config, result, now),
    ensures
        synthetics_consistent(result, config),
{
    assert forall|k: Seq<char>| #[trigger] has_key(config, k) implies has_key(result, k) by {
        assert(has_key(config, k));
        if has_key(cur, k) {
            assert(has_key(cur, k) && has_key(config, k));
        }
    }
    assert forall|k: Seq<char>| #[trigger] has_key(result, k) implies value_of(result, k)
        == merge_synthetic(value_of(config, k), value_of(result, k)) by {
        assert(has_key(config, k));
        if has_key(cur, k) {
            assert(value_of(result, k) == merge_synthetic(value_of(config, k), value_of(cur, k)));
        } else {
            assert(value_of(result, k) == fresh_synthetic(value_of(config, k), now));
        }
    }
}

/// Syncing a map that is already consistent with the template changes
/// nothing: the second pass of a repeated sync returns its input.
pub proof fn lemma_sync_synthetics_stable(
    cur: Seq<(String, model::SyntheticFeature)>,
    config: Seq<(String, config::Synthetic)>,
    result: Seq<(String, model::SyntheticFeature)>,
    now: i64,
)
    requires
        distinct_keys(cur),
        distinct_keys(config),
        synthetics_consistent(cur, config),
        synthetics_synced(cur, config, result, now),
    ensures
        result == cur,
{
    lemma_merged_keys_all(cur, config);
    lemma_added_keys_none(config, cur);
    assert(entry_keys(result) =~= entry_keys(cur));
    assert(result.len() == cur.len());
    assert forall|i: int| 0 <= i < result.len() implies result[i] == cur[i] by {
        let k = cur[i].0@;
        assert(entry_keys(cur)[i] == k);
        lemma_key_index_unique(cur, k, i);
        assert(entry_keys(result)[i] == k);
        lemma_key_index_unique(result, k, i);
        assert(has_key(cur, k) && has_key(config, k));
        assert(value_of(result, k) == merge_synthetic(value_of(config, k), value_of(cur, k)));
        assert(value_of(cur, k) == merge_synthetic(value_of(config, k), value_of(cur, k)));
        assert(result[i].1 == cur[i].1);
        assert(key_string_of(result, k) == key_string_of(cur, k));
        assert(result[i].0 == cur[i].0);
    }
    assert(result =~= cur);
}

/// Adding one definition to the template of an already-consistent map adds
/// exactly one default entry, appended at the end; every existing entry,
/// runtime fields included, is identical.
pub proof fn lemma_synthetics_template_add(
    cur: Seq<(String, model::SyntheticFeature)>,
    config: Seq<(String, config::Synthetic)>,
    e: (String, config::Synthetic),
    result: Seq<(String, model::SyntheticFeature)>,
    now: i64,
)
    requires
        distinct_keys(cur),
        distinct_keys(config),
        !has_key(config, e.0@),
        synthetics_consistent(cur, config),
        synthetics_synced(cur, config.push(e), result, now),
    ensures
        result == cur.push((e.0, fresh_synthetic(e.1, now))),
{
    let big = config.push(e);
    assert(!has_key(cur, e.0@));
    assert forall|k: Seq<char>| #[trigger] has_key(cur, k) implies has_key(big, k) by {
        lemma_lookup_push(config, e, k);
    }
    lemma_merged_keys_all(cur, big);
    lemma_added_keys_push(config, e, cur);
    lemma_added_keys_none(config, cur);
    assert(added_keys(big, cur) == Seq::<Seq<char>>::empty().push(e.0@));
    assert(entry_keys(result) =~= entry_keys(cur).push(e.0@));
    assert(result.len() == cur.len() + 1);
    assert forall|i: int| 0 <= i < cur.len() implies result[i] == cur[i] by {
        let k = cur[i].0@;
        assert(entry_keys(cur)[i] == k);
        lemma_key_index_unique(cur, k, i);
        assert(entry_keys(result)[i] == k);
        lemma_key_index_unique(result, k, i);
        lemma_lookup_push(config, e, k);
        assert(has_key(cur, k) && has_key(big, k));
        assert(value_of(result, k) == merge_synthetic(value_of(big, k), value_of(cur, k)));
        assert(value_of(big, k) == value_of(config, k));
        assert(value_of(cur, k) == merge_synthetic(value_of(config, k), value_of(cur, k)));
        assert(result[i].1 == cur[i].1);
        assert(result[i].0 == cur[i].0);
    }
    assert(result[cur.len() as int] == (e.0, fresh_synthetic(e.1, now))) by {
        let k = e.0@;
        assert(entry_keys(result)[cur.len() as int] == k);
        lemma_key_index_unique(result, k, cur.len() as int);
        lemma_lookup_push(config, e, k);
        assert(has_key(big, k) && !has_key(cur, k));
        assert(value_of(result, k) == fresh_synthetic(value_of(big, k), now));
        assert(value_of(big, k) == e.1);
        assert(key_string_of(result, k) == key_string_of(big, k));
        assert(key_string_of(big, k) == e.0);
    }
    assert(result =~= cur.push((e.0, fresh_synthetic(e.1, now))));
}

/// Removing one definition from the template deletes exactly that entry on
/// the next sync; every other entry, runtime fields included, is identical.
pub proof fn lemma_synthetics_template_remove(
    cur: Seq<(String, model::SyntheticFeature)>,
    config: Seq<(String, config::Synthetic)>,
    kstar: Seq<char>,
    result: Seq<(String, model::SyntheticFeature)>,
    now: i64,
)
    requires
        distinct_keys(cur),
        distinct_keys(config),
        has_key(cur, kstar),
        !has_key(config, kstar),
        forall|k: Seq<char>| #[trigger] has_key(cur, k) && k != kstar ==> has_key(config, k)
            && value_of(cur, k) == merge_synthetic(value_of(config, k), value_of(cur, k)),
        forall|k: Seq<char>| #[trigger] has_key(config, k) ==> has_key(cur, k),
        synthetics_synced(cur, config, result, now),
    ensures
        result == cur.remove(key_index(cur, kstar)),
{
    let istar = key_index(cur, kstar);
    lemma_key_index(cur, kstar);
    lemma_merged_keys_except(cur, config, kstar);
    lemma_added_keys_none(config, cur);
    assert(entry_keys(result) =~= entry_keys(cur).remove(istar));
    let expect = cur.remove(istar);
    assert(result.len() == expect.len());
    assert forall|i: int| 0 <= i < result.len() implies result[i] == expect[i] by {
        let oi = if i < istar {
            i
        } else {
            i + 1
        };
        assert(expect[i] == cur[oi]);
        let k = cur[oi].0@;
        assert(entry_keys(cur)[oi] == k);
        lemma_key_index_unique(cur, k, oi);
        assert(entry_keys(cur).remove(istar)[i] == k);
        assert(entry_keys(result)[i] == k);
        lemma_key_index_unique(result, k, i);
        assert(k != kstar);
        assert(has_key(cur, k) && has_key(config, k));
        assert(value_of(result, k) == merge_synthetic(value_of(config, k), value_of(cur, k)));
        assert(value_of(cur, k) == merge_synthetic(value_of(config, k), value_of(cur, k)));
        assert(result[i].1 == cur[oi].1);
        assert(result[i].0 == cur[oi].0);
    }
    assert(result =~= expect);
}
/// A current map that is consistent with the template: same key set, and
/// every definition-controlled field already as prescribed.
pub open spec fn changed_consistent(
    cur: Seq<(String, model::Changed)>,
    config: Seq<(String, config::Code)>,
) -> bool {
    &&& forall|k: Seq<char>| #[trigger] has_key(cur, k) ==> has_key(config, k)
    &&& forall|k: Seq<char>| #[trigger] has_key(config, k) ==> has_key(cur, k)
    &&& forall|k: Seq<char>| #[trigger] has_key(cur, k) ==> value_of(cur, k) == merge_changed(
        value_of(config, k),
        value_of(cur, k),
    )
}

/// One sync leaves the map consistent with the template.
pub proof fn lemma_sync_changed_consistent(
    cur: Seq<(String, model::Changed)>,
    config: Seq<(String, config::Code)>,
    result: Seq<(String, model::Changed)>,
)
    requires
        distinct_keys(cur),
        distinct_keys(config),
        changed_synced(cur, config, result),
    ensures
        changed_consistent(result, config),
{
    assert forall|k: Seq<char>| #[trigger] has_key(config, k) implies has_key(result, k) by {
        assert(has_key(config, k));
        if has_key(cur, k) {
            assert(has_key(cur, k) && has_key(config, k));
        }
    }
    assert forall|k: Seq<char>| #[trigger] has_key(result, k) implies value_of(result, k)
        == merge_changed(value_of(config, k), value_of(result, k)) by {
        assert(has_key(config, k));
        if has_key(cur, k) {
            assert(value_of(result, k) == merge_changed(value_of(config, k), value_of(cur, k)));
        } else {
            assert(fresh_changed_ok(value_of(config, k), value_of(result, k)));
        }
    }
}

/// Syncing a map that is already consistent with the template changes
/// nothing: the second pass of a repeated sync returns its input.
pub proof fn lemma_sync_changed_stable(
    cur: Seq<(String, model::Changed)>,
    config: Seq<(String, config::Code)>,
    result: Seq<(String, model::Changed)>,
)
    requires
        distinct_keys(cur),
        distinct_keys(config),
        changed_consistent(cur, config),
        changed_synced(cur, config, result),
    ensures
        result == cur,
{
    lemma_merged_keys_all(cur, config);
    lemma_added_keys_none(config, cur);
    assert(entry_keys(result) =~= entry_keys(cur));
    assert(result.len() == cur.len());
    assert forall|i: int| 0 <= i < result.len() implies result[i] == cur[i] by {
        let k = cur[i].0@;
        assert(entry_keys(cur)[i] == k);
        lemma_key_index_unique(cur, k, i);
        assert(entry_keys(result)[i] == k);
        lemma_key_index_unique(result, k, i);
        assert(has_key(cur, k) && has_key(config, k));
        assert(value_of(result, k) == merge_changed(value_of(config, k), value_of(cur, k)));
        assert(value_of(cur, k) == merge_changed(value_of(config, k), value_of(cur, k)));
        assert(result[i].1 == cur[i].1);
        assert(key_string_of(result, k) == key_string_of(cur, k));
        assert(result[i].0 == cur[i].0);
    }
    assert(result =~= cur);
}

/// Adding one definition to the template of an already-consistent map adds
/// exactly one default entry, appended at the end; every existing entry,
/// runtime fields included, is identical.
pub proof fn lemma_changed_template_add(
    cur: Seq<(String, model::Changed)>,
    config: Seq<(String, config::Code)>,
    e: (String, config::Code),
    result: Seq<(String, model::Changed)>,
)
    requires
        distinct_keys(cur),
        distinct_keys(config),
        !has_key(config, e.0@),
        changed_consistent(cur, config),
        changed_synced(cur, config.push(e), result),
    ensures
        result.len() == cur.len() + 1,
        forall|i: int| 0 <= i < cur.len() ==> result[i] == cur[i],
        result.last().0 == e.0,
        fresh_changed_ok(e.1, result.last().1),
{
    let big = config.push(e);
    assert(!has_key(cur, e.0@));
    assert forall|k: Seq<char>| #[trigger] has_key(cur, k) implies has_key(big, k) by {
        lemma_lookup_push(config, e, k);
    }
    lemma_merged_keys_all(cur, big);
    lemma_added_keys_push(config, e, cur);
    lemma_added_keys_none(config, cur);
    assert(added_keys(big, cur) == Seq::<Seq<char>>::empty().push(e.0@));
    assert(entry_keys(result) =~= entry_keys(cur).push(e.0@));
    assert(result.len() == cur.len() + 1);
    assert forall|i: int| 0 <= i < cur.len() implies result[i] == cur[i] by {
        let k = cur[i].0@;
        assert(entry_keys(cur)[i] == k);
        lemma_key_index_unique(cur, k, i);
        assert(entry_keys(result)[i] == k);
        lemma_key_index_unique(result, k, i);
        lemma_lookup_push(config, e, k);
        assert(has_key(cur, k) && has_key(big, k));
        assert(value_of(result, k) == merge_changed(value_of(big, k), value_of(cur, k)));
        assert(value_of(big, k) == value_of(config, k));
        assert(value_of(cur, k) == merge_changed(value_of(config, k), value_of(cur, k)));
        assert(result[i].1 == cur[i].1);
        assert(result[i].0 == cur[i].0);
    }
    let k = e.0@;
    assert(entry_keys(result)[cur.len() as int] == k);
    lemma_key_index_unique(result, k, cur.len() as int);
    lemma_lookup_push(config, e, k);
    assert(has_key(big, k) && !has_key(cur, k));
    assert(fresh_changed_ok(value_of(big, k), value_of(result, k)));
    assert(value_of(big, k) == e.1);
    assert(key_string_of(result, k) == key_string_of(big, k));
    assert(key_string_of(big, k) == e.0);
    assert(result.last() == result[cur.len() as int]);
    assert(result.last().1 == value_of(result, k));
    assert(result.last().0 == key_string_of(result, k));
}

/// Removing one definition from the template deletes exactly that entry on
/// the next sync; every other entry, runtime fields included, is identical.
pub proof fn lemma_changed_template_remove(
    cur: Seq<(String, model::Changed)>,
    config: Seq<(String, config::Code)>,
    kstar: Seq<char>,
    result: Seq<(String, model::Changed)>,
)
    requires
        distinct_keys(cur),
        distinct_keys(config),
        has_key(cur, kstar),
        !has_key(config, kstar),
        forall|k: Seq<char>| #[trigger] has_key(cur, k) && k != kstar ==> has_key(config, k)
            && value_of(cur, k) == merge_changed(value_of(config, k), value_of(cur, k)),
        forall|k: Seq<char>| #[trigger] has_key(config, k) ==> has_key(cur, k),
        changed_synced(cur, config, result),
    ensures
        result == cur.remove(key_index(cur, kstar)),
{
    let istar = key_index(cur, kstar);
    lemma_key_index(cur, kstar);
    lemma_merged_keys_except(cur, config, kstar);
    lemma_added_keys_none(config, cur);
    assert(entry_keys(result) =~= entry_keys(cur).remove(istar));
    let expect = cur.remove(istar);
    assert(result.len() == expect.len());
    assert forall|i: int| 0 <= i < result.len() implies result[i] == expect[i] by {
        let oi = if i < istar {
            i
        } else {
            i + 1
        };
        assert(expect[i] == cur[oi]);
        let k = cur[oi].0@;
        assert(entry_keys(cur)[oi] == k);
        lemma_key_index_unique(cur, k, oi);
        assert(entry_keys(cur).remove(istar)[i] == k);
        assert(entry_keys(result)[i] == k);
        lemma_key_index_unique(result, k, i);
        assert(k != kstar);
        assert(has_key(cur, k) && has_key(config, k));
        assert(value_of(result, k) == merge_changed(value_of(config, k), value_of(cur, k)));
        assert(value_of(cur, k) == merge_changed(value_of(config, k), value_of(cur, k)));
        assert(result[i].1 == cur[oi].1);
        assert(result[i].0 == cur[oi].0);
    }
    assert(result =~= expect);
}
/// A current map that is consistent with the template: same key set, and
/// every definition-controlled field already as prescribed.
pub open spec fn deleting_consistent(
    cur: Seq<(String, model::Deleting)>,
    config: Seq<(String, config::Code)>,
) -> bool {
    &&& forall|k: Seq<char>| #[trigger] has_key(cur, k) ==> has_key(config, k)
    &&& forall|k: Seq<char>| #[trigger] has_key(config, k) ==> has_key(cur, k)
    &&& forall|k: Seq<char>| #[trigger] has_key(cur, k) ==> value_of(cur, k) == merge_deleting(
        value_of(config, k),
        value_of(cur, k),
    )
}

/// One sync leaves the map consistent with the template.
pub proof fn lemma_sync_deleting_consistent(
    cur: Seq<(String, model::Deleting)>,
    config: Seq<(String, config::Code)>,
    result: Seq<(String, model::Deleting)>,
)
    requires
        distinct_keys(cur),
        distinct_keys(config),
        deleting_synced(cur, config, result),
    ensures
        deleting_consistent(result, config),
{
    assert forall|k: Seq<char>| #[trigger] has_key(config, k) implies has_key(result, k) by {
        assert(has_key(config, k));
        if has_key(cur, k) {
            assert(has_key(cur, k) && has_key(config, k));
        }
    }
    assert forall|k: Seq<char>| #[trigger] has_key(result, k) implies value_of(result, k)
        == merge_deleting(value_of(config, k), value_of(result, k)) by {
        assert(has_key(config, k));
        if has_key(cur, k) {
            assert(value_of(result, k) == merge_deleting(value_of(config, k), value_of(cur, k)));
        } else {
            assert(value_of(result, k) == fresh_deleting(value_of(config, k)));
        }
    }
}

/// Syncing a map that is already consistent with the template changes
/// nothing: the second pass of a repeated sync returns its input.
pub proof fn lemma_sync_deleting_stable(
    cur: Seq<(String, model::Deleting)>,
    config: Seq<(String, config::Code)>,
    result: Seq<(String, model::Deleting)>,
)
    requires
        distinct_keys(cur),
        distinct_keys(config),
        deleting_consistent(cur, config),
        deleting_synced(cur, config, result),
    ensures
        result == cur,
{
    lemma_merged_keys_all(cur, config);
    lemma_added_keys_none(config, cur);
    assert(entry_keys(result) =~= entry_keys(cur));
    assert(result.len() == cur.len());
    assert forall|i: int| 0 <= i < result.len() implies result[i] == cur[i] by {
        let k = cur[i].0@;
        assert(entry_keys(cur)[i] == k);
        lemma_key_index_unique(cur, k, i);
        assert(entry_keys(result)[i] == k);
        lemma_key_index_unique(result, k, i);
        assert(has_key(cur, k) && has_key(config, k));
        assert(value_of(result, k) == merge_deleting(value_of(config, k), value_of(cur, k)));
        assert(value_of(cur, k) == merge_deleting(value_of(config, k), value_of(cur, k)));
        assert(result[i].1 == cur[i].1);
        assert(key_string_of(result, k) == key_string_of(cur, k));
        assert(result[i].0 == cur[i].0);
    }
    assert(result =~= cur);
}

/// Adding one definition to the template of an already-consistent map adds
/// exactly one default entry, appended at the end; every existing entry,
/// runtime fields included, is identical.
pub proof fn lemma_deleting_template_add(
    cur: Seq<(String, model::Deleting)>,
    config: Seq<(String, config::Code)>,
    e: (String, config::Code),
    result: Seq<(String, model::Deleting)>,
)
    requires
        distinct_keys(cur),
        distinct_keys(config),
        !has_key(config, e.0@),
        deleting_consistent(cur, config),
        deleting_synced(cur, config.push(e), result),
    ensures
        result == cur.push((e.0, fresh_deleting(e.1))),
{
    let big = config.push(e);
    assert(!has_key(cur, e.0@));
    assert forall|k: Seq<char>| #[trigger] has_key(cur, k) implies has_key(big, k) by {
        lemma_lookup_push(config, e, k);
    }
    lemma_merged_keys_all(cur, big);
    lemma_added_keys_push(config, e, cur);
    lemma_added_keys_none(config, cur);
    assert(added_keys(big, cur) == Seq::<Seq<char>>::empty().push(e.0@));
    assert(entry_keys(result) =~= entry_keys(cur).push(e.0@));
    assert(result.len() == cur.len() + 1);
    assert forall|i: int| 0 <= i < cur.len() implies result[i] == cur[i] by {
        let k = cur[i].0@;
        assert(entry_keys(cur)[i] == k);
        lemma_key_index_unique(cur, k, i);
        assert(entry_keys(result)[i] == k);
        lemma_key_index_unique(result, k, i);
        lemma_lookup_push(config, e, k);
        assert(has_key(cur, k) && has_key(big, k));
        assert(value_of(result, k) == merge_deleting(value_of(big, k), value_of(cur, k)));
        assert(value_of(big, k) == value_of(config, k));
        assert(value_of(cur, k) == merge_deleting(value_of(config, k), value_of(cur, k)));
        assert(result[i].1 == cur[i].1);
        assert(result[i].0 == cur[i].0);
    }
    assert(result[cur.len() as int] == (e.0, fresh_deleting(e.1))) by {
        let k = e.0@;
        assert(entry_keys(result)[cur.len() as int] == k);
        lemma_key_index_unique(result, k, cur.len() as int);
        lemma_lookup_push(config, e, k);
        assert(has_key(big, k) && !has_key(cur, k));
        assert(value_of(result, k) == fresh_deleting(value_of(big, k)));
        assert(value_of(big, k) == e.1);
        assert(key_string_of(result, k) == key_string_of(big, k));
        assert(key_string_of(big, k) == e.0);
    }
    assert(result =~= cur.push((e.0, fresh_deleting(e.1))));
}

/// Removing one definition from the template deletes exactly that entry on
/// the next sync; every other entry, runtime fields included, is identical.
pub proof fn lemma_deleting_template_remove(
    cur: Seq<(String, model::Deleting)>,
    config: Seq<(String, config::Code)>,
    kstar: Seq<char>,
    result: Seq<(String, model::Deleting)>,
)
    requires
        distinct_keys(cur),
        distinct_keys(config),
        has_key(cur, kstar),
        !has_key(config, kstar),
        forall|k: Seq<char>| #[trigger] has_key(cur, k) && k != kstar ==> has_key(config, k)
            && value_of(cur, k) == merge_deleting(value_of(config, k), value_of(cur, k)),
        forall|k: Seq<char>| #[trigger] has_key(config, k) ==> has_key(cur, k),
        deleting_synced(cur, config, result),
    ensures
        result == cur.remove(key_index(cur, kstar)),
{
    let istar = key_index(cur, kstar);
    lemma_key_index(cur, kstar);
    lemma_merged_keys_except(cur, config, kstar);
    lemma_added_keys_none(config, cur);
    assert(entry_keys(result) =~= entry_keys(cur).remove(istar));
    let expect = cur.remove(istar);
    assert(result.len() == expect.len());
    assert forall|i: int| 0 <= i < result.len() implies result[i] == expect[i] by {
        let oi = if i < istar {
            i
        } else {
            i + 1
        };
        assert(expect[i] == cur[oi]);
        let k = cur[oi].0@;
        assert(entry_keys(cur)[oi] == k);
        lemma_key_index_unique(cur, k, oi);
        assert(entry_keys(cur).remove(istar)[i] == k);
        assert(entry_keys(result)[i] == k);
        lemma_key_index_unique(result, k, i);
        assert(k != kstar);
        assert(has_key(cur, k) && has_key(config, k));
        assert(value_of(result, k) == merge_deleting(value_of(config, k), value_of(cur, k)));
        assert(value_of(cur, k) == merge_deleting(value_of(config, k), value_of(cur, k)));
        assert(result[i].1 == cur[oi].1);
        assert(result[i].0 == cur[oi].0);
    }
    assert(result =~= expect);
}
/// A current map that is consistent with the template: same key set, and
/// every definition-controlled field already as prescribed.
pub open spec fn timers_consistent(
    cur: Seq<(String, model::Timer)>,
    config: Seq<(String, config::Timer)>,
) -> bool {
    &&& forall|k: Seq<char>| #[trigger] has_key(cur, k) ==> has_key(config, k)
    &&& forall|k: Seq<char>| #[trigger] has_key(config, k) ==> has_key(cur, k)
    &&& forall|k: Seq<char>| #[trigger] has_key(cur, k) ==> value_of(cur, k) == merge_timer(
        value_of(config, k),
        value_of(cur, k),
    )
}

/// One sync leaves the map consistent with the template.
pub proof fn lemma_sync_timers_consistent(
    cur: Seq<(String, model::Timer)>,
    config: Seq<(String, config::Timer)>,
    result: Seq<(String, model::Timer)>,
)
    requires
        distinct_keys(cur),
        distinct_keys(config),
        timers_synced(cur, config, result),
    ensures
        timers_consistent(result, config),
{
    assert forall|k: Seq<char>| #[trigger] has_key(config, k) implies has_key(result, k) by {
        assert(has_key(config, k));
        if has_key(cur, k) {
            assert(has_key(cur, k) && has_key(config, k));
        }
    }
    assert forall|k: Seq<char>| #[trigger] has_key(result, k) implies value_of(result, k)
        == merge_timer(value_of(config, k), value_of(result, k)) by {
        assert(has_key(config, k));
        if has_key(cur, k) {
            assert(value_of(result, k) == merge_timer(value_of(config, k), value_of(cur, k)));
        } else {
            assert(fresh_timer_ok(value_of(config, k), value_of(result, k)));
        }
    }
}

/// Syncing a map that is already consistent with the template changes
/// nothing: the second pass of a repeated sync returns its input.
pub proof fn lemma_sync_timers_stable(
    cur: Seq<(String, model::Timer)>,
    config: Seq<(String, config::Timer)>,
    result: Seq<(String, model::Timer)>,
)
    requires
        distinct_keys(cur),
        distinct_keys(config),
        timers_consistent(cur, config),
        timers_synced(cur, config, result),
    ensures
        result == cur,
{
    lemma_merged_keys_all(cur, config);
    lemma_added_keys_none(config, cur);
    assert(entry_keys(result) =~= entry_keys(cur));
    assert(result.len() == cur.len());
    assert forall|i: int| 0 <= i < result.len() implies result[i] == cur[i] by {
        let k = cur[i].0@;
        assert(entry_keys(cur)[i] == k);
        lemma_key_index_unique(cur, k, i);
        assert(entry_keys(result)[i] == k);
        lemma_key_index_unique(result, k, i);
        assert(has_key(cur, k) && has_key(config, k));
        assert(value_of(result, k) == merge_timer(value_of(config, k), value_of(cur, k)));
        assert(value_of(cur, k) == merge_timer(value_of(config, k), value_of(cur, k)));
        assert(result[i].1 == cur[i].1);
        assert(key_string_of(result, k) == key_string_of(cur, k));
        assert(result[i].0 == cur[i].0);
    }
    assert(result =~= cur);
}

/// Adding one definition to the template of an already-consistent map adds
/// exactly one default entry, appended at the end; every existing entry,
/// runtime fields included, is identical.
pub proof fn lemma_timers_template_add(
    cur: Seq<(String, model::Timer)>,
    config: Seq<(String, config::Timer)>,
    e: (String, config::Timer),
    result: Seq<(String, model::Timer)>,
)
    requires
        distinct_keys(cur),
        distinct_keys(config),
        !has_key(config, e.0@),
        timers_consistent(cur, config),
        timers_synced(cur, config.push(e), result),
    ensures
        result.len() == cur.len() + 1,
        forall|i: int| 0 <= i < cur.len() ==> result[i] == cur[i],
        result.last().0 == e.0,
        fresh_timer_ok(e.1, result.last().1),
{
    let big = config.push(e);
    assert(!has_key(cur, e.0@));
    assert forall|k: Seq<char>| #[trigger] has_key(cur, k) implies has_key(big, k) by {
        lemma_lookup_push(config, e, k);
    }
    lemma_merged_keys_all(cur, big);
    lemma_added_keys_push(config, e, cur);
    lemma_added_keys_none(config, cur);
    assert(added_keys(big, cur) == Seq::<Seq<char>>::empty().push(e.0@));
    assert(entry_keys(result) =~= entry_keys(cur).push(e.0@));
    assert(result.len() == cur.len() + 1);
    assert forall|i: int| 0 <= i < cur.len() implies result[i] == cur[i] by {
        let k = cur[i].0@;
        assert(entry_keys(cur)[i] == k);
        lemma_key_index_unique(cur, k, i);
        assert(entry_keys(result)[i] == k);
        lemma_key_index_unique(result, k, i);
        lemma_lookup_push(config, e, k);
        assert(has_key(cur, k) && has_key(big, k));
        assert(value_of(result, k) == merge_timer(value_of(big, k), value_of(cur, k)));
        assert(value_of(big, k) == value_of(config, k));
        assert(value_of(cur, k) == merge_timer(value_of(config, k), value_of(cur, k)));
        assert(result[i].1 == cur[i].1);
        assert(result[i].0 == cur[i].0);
    }
    let k = e.0@;
    assert(entry_keys(result)[cur.len() as int] == k);
    lemma_key_index_unique(result, k, cur.len() as int);
    lemma_lookup_push(config, e, k);
    assert(has_key(big, k) && !has_key(cur, k));
    assert(fresh_timer_ok(value_of(big, k), value_of(result, k)));
    assert(value_of(big, k) == e.1);
    assert(key_string_of(result, k) == key_string_of(big, k));
    assert(key_string_of(big, k) == e.0);
    assert(result.last() == result[cur.len() as int]);
    assert(result.last().1 == value_of(result, k));
    assert(result.last().0 == key_string_of(result, k));
}

/// Removing one definition from the template deletes exactly that entry on
/// the next sync; every other entry, runtime fields included, is identical.
pub proof fn lemma_timers_template_remove(
    cur: Seq<(String, model::Timer)>,
    config: Seq<(String, config::Timer)>,
    kstar: Seq<char>,
    result: Seq<(String, model::Timer)>,
)
    requires
        distinct_keys(cur),
        distinct_keys(config),
        has_key(cur, kstar),
        !has_key(config, kstar),
        forall|k: Seq<char>| #[trigger] has_key(cur, k) && k != kstar ==> has_key(config, k)
            && value_of(cur, k) == merge_timer(value_of(config, k), value_of(cur, k)),
        forall|k: Seq<char>| #[trigger] has_key(config, k) ==> has_key(cur, k),
        timers_synced(cur, config, result),
    ensures
        result == cur.remove(key_index(cur, kstar)),
{
    let istar = key_index(cur, kstar);
    lemma_key_index(cur, kstar);
    lemma_merged_keys_except(cur, config, kstar);
    lemma_added_keys_none(config, cur);
    assert(entry_keys(result) =~= entry_keys(cur).remove(istar));
    let expect = cur.remove(istar);
    assert(result.len() == expect.len());
    assert forall|i: int| 0 <= i < result.len() implies result[i] == expect[i] by {
        let oi = if i < istar {
            i
        } else {
            i + 1
        };
        assert(expect[i] == cur[oi]);
        let k = cur[oi].0@;
        assert(entry_keys(cur)[oi] == k);
        lemma_key_index_unique(cur, k, oi);
        assert(entry_keys(cur).remove(istar)[i] == k);
        assert(entry_keys(result)[i] == k);
        lemma_key_index_unique(result, k, i);
        assert(k != kstar);
        assert(has_key(cur, k) && has_key(config, k));
        assert(value_of(result, k) == merge_timer(value_of(config, k), value_of(cur, k)));
        assert(value_of(cur, k) == merge_timer(value_of(config, k), value_of(cur, k)));
        assert(result[i].1 == cur[oi].1);
        assert(result[i].0 == cur[oi].0);
    }
    assert(result =~= expect);
}
} // verus!
