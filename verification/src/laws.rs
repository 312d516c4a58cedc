//! Properties of the library that span several functions.

use vstd::prelude::*;

use crate::config::{
    all_models_of, auth_allows, config_models_view, lookup_provider,
    merged_remap_models, model_selected, processed_view, remap_models_view, remaps_view,
    resolved_key, resolved_providers, tokens_view, AuthTokenView, ConfigView, ModelConfigView,
    ProviderView, RemapConfigView, RemapView,
};
use crate::filter::regex_is_match;
use crate::proxy::hop_by_hop_headers;
use crate::text::{env_reference_name, is_env_reference, trim_trailing_slashes};
use crate::model_map::{lemma_put_all_wf, lemma_put_wf, put_all, ModelMapView, ModelTargetView};
use crate::text::lemma_trim_trailing_slashes;

verus! {

/// The keys of a sequence of pairs.
pub open spec fn pair_keys(pairs: Seq<(Seq<char>, ModelTargetView)>) -> Seq<Seq<char>> {
    pairs.map_values(|p: (Seq<char>, ModelTargetView)| p.0)
}

/// Inserting pairs with distinct keys: each inserted key maps to its
/// pair's target, every other key keeps what it had.
pub proof fn lemma_put_all_get(m: ModelMapView, pairs: Seq<(Seq<char>, ModelTargetView)>)
    requires
        pair_keys(pairs).no_duplicates(),
    ensures
        forall|i: int| 0 <= i < pairs.len() ==> put_all(m, pairs).get(#[trigger] pairs[i].0) == Some(pairs[i].1),
        forall|k: Seq<char>|
            !pair_keys(pairs).contains(k) ==> #[trigger] put_all(m, pairs).get(k) == m.get(k),
    decreases pairs.len(),
{
    if pairs.len() > 0 {
        let p = pairs.drop_last();
        let last = pairs.last();
        let n = pairs.len() - 1;
        assert forall|a: int, b: int|
            0 <= a < pair_keys(p).len() && 0 <= b < pair_keys(p).len() && a != b implies pair_keys(p)[a]
            != pair_keys(p)[b] by {
            assert(pair_keys(p)[a] == pair_keys(pairs)[a]);
            assert(pair_keys(p)[b] == pair_keys(pairs)[b]);
        }
        lemma_put_all_get(m, p);
        assert forall|i: int| 0 <= i < pairs.len() implies put_all(m, pairs).get(#[trigger] pairs[i].0)
            == Some(pairs[i].1) by {
            if i < n {
                assert(pair_keys(pairs)[i] == pairs[i].0);
                assert(pair_keys(pairs)[n] == last.0);
                assert(p[i] == pairs[i]);
            }
        }
        assert forall|k: Seq<char>| !pair_keys(pairs).contains(k) implies #[trigger] put_all(
            m,
            pairs,
        ).get(k) == m.get(k) by {
            assert(pair_keys(pairs)[n] == last.0);
            if pair_keys(p).contains(k) {
                let j = choose|j: int| 0 <= j < pair_keys(p).len() && pair_keys(p)[j] == k;
                assert(pair_keys(pairs)[j] == k);
            }
            assert(k != last.0);
            assert(put_all(m, p).get(k) == m.get(k));
            assert(put_all(m, pairs) == put_all(m, p).put(last.0, last.1));
        }
    }
}

/// Inserting pairs into a well-formed map: the names already there keep
/// their places at the front, and the names afterwards are the old ones and
/// the inserted keys.
pub proof fn lemma_put_all_names(m: ModelMapView, pairs: Seq<(Seq<char>, ModelTargetView)>)
    requires
        m.wf(),
    ensures
        put_all(m, pairs).names.len() >= m.names.len(),
        put_all(m, pairs).names.take(m.names.len() as int) == m.names,
        forall|k: Seq<char>|
            #[trigger] put_all(m, pairs).names.contains(k) <==> (m.names.contains(k) || pair_keys(
                pairs,
            ).contains(k)),
    decreases pairs.len(),
{
    if pairs.len() > 0 {
        let p = pairs.drop_last();
        let last = pairs.last();
        let n = pairs.len() - 1;
        lemma_put_all_names(m, p);
        lemma_put_all_wf(m, p);
        let before = put_all(m, p);
        let after = put_all(m, pairs);
        assert(after == before.put(last.0, last.1));
        if !before.targets.contains_key(last.0) {
            assert(after.names.take(m.names.len() as int) =~= before.names.take(m.names.len() as int));
        }
        assert forall|k: Seq<char>| #[trigger] after.names.contains(k) <==> (m.names.contains(k)
            || pair_keys(pairs).contains(k)) by {
            assert(pair_keys(pairs)[n] == last.0);
            if pair_keys(p).contains(k) {
                let j = choose|j: int| 0 <= j < pair_keys(p).len() && pair_keys(p)[j] == k;
                assert(pair_keys(pairs)[j] == k);
            }
            if pair_keys(pairs).contains(k) && k != last.0 {
                let j = choose|j: int| 0 <= j < pair_keys(pairs).len() && pair_keys(pairs)[j] == k;
                assert(j != n);
                assert(pair_keys(p)[j] == k);
            }
            if !before.targets.contains_key(last.0) {
                if before.names.contains(k) {
                    let j = choose|j: int| 0 <= j < before.names.len() && before.names[j] == k;
                    assert(after.names[j] == k);
                }
                if after.names.contains(k) && k != last.0 {
                    let j = choose|j: int| 0 <= j < after.names.len() && after.names[j] == k;
                    assert(j < before.names.len());
                    assert(before.names[j] == k);
                }
                assert(after.names[before.names.len() as int] == last.0);
            } else {
                assert(before.names.contains(last.0));
            }
        }
    } else {
        assert(m.names.take(m.names.len() as int) =~= m.names);
    }
}

/// The entries of a well-formed map have distinct keys, namely its names.
pub proof fn lemma_entries(m: ModelMapView)
    requires
        m.wf(),
    ensures
        pair_keys(m.entries()) == m.names,
        pair_keys(m.entries()).no_duplicates(),
        forall|i: int| 0 <= i < m.names.len() ==> (#[trigger] m.entries()[i]) == (m.names[i], m.targets[m.names[i]]),
{
    assert(pair_keys(m.entries()) =~= m.names);
}

/// Reading after writing: after `k -> v` is inserted, `k` maps to `v`,
/// every other name keeps its target, the earlier names keep their order,
/// and the map stays well formed.
pub proof fn law_read_after_insert(m: ModelMapView, k: Seq<char>, v: ModelTargetView, other: Seq<char>)
    requires
        m.wf(),
    ensures
        m.put(k, v).wf(),
        m.put(k, v).get(k) == Some(v),
        other != k ==> m.put(k, v).get(other) == m.get(other),
        m.put(k, v).names.take(m.names.len() as int) == m.names,
        m.put(k, v).names.contains(k),
{
    lemma_put_wf(m, k, v);
    let r = m.put(k, v);
    if m.targets.contains_key(k) {
        assert(r.names.take(m.names.len() as int) =~= m.names);
    } else {
        assert(r.names.take(m.names.len() as int) =~= m.names);
        assert(r.names[m.names.len() as int] == k);
    }
}

/// In a well-formed map, a model has a target exactly when it is listed,
/// and no model is listed twice.
pub proof fn law_listed_iff_routable(m: ModelMapView, k: Seq<char>)
    requires
        m.wf(),
    ensures
        m.get(k) is Some <==> m.names.contains(k),
        m.names.no_duplicates(),
{
}

/// The map built by inserting a map's own entries into an empty map is
/// that map.
pub proof fn law_rebuild_from_entries(m: ModelMapView)
    requires
        m.wf(),
    ensures
        put_all(ModelMapView::empty(), m.entries()) == m,
{
    let e = ModelMapView::empty();
    lemma_entries(m);
    lemma_put_all_get(e, m.entries());
    lemma_put_all_names(e, m.entries());
    let r = put_all(e, m.entries());
    lemma_put_all_wf(e, m.entries());
    assert forall|k: Seq<char>| r.names.contains(k) <==> m.names.contains(k) by {
        assert(!e.names.contains(k));
    }
    lemma_put_all_entries_names(m, m.names.len() as int);
    assert(m.entries().take(m.names.len() as int) =~= m.entries());
    assert(m.names.take(m.names.len() as int) =~= m.names);
    assert forall|k: Seq<char>| #[trigger] r.targets.contains_key(k) <==> m.targets.contains_key(k) by {}
    assert forall|k: Seq<char>| r.targets.contains_key(k) implies #[trigger] r.targets[k] == m.targets[k] by {
        let i = choose|i: int| 0 <= i < m.names.len() && m.names[i] == k;
        assert(m.entries()[i] == (m.names[i], m.targets[m.names[i]]));
        assert(r.get(m.entries()[i].0) == Some(m.entries()[i].1));
    }
    assert(r.targets =~= m.targets);
}

/// Inserting the first `i` entries of a map into an empty map lists the
/// first `i` names, in order.
pub proof fn lemma_put_all_entries_names(m: ModelMapView, i: int)
    requires
        m.wf(),
        0 <= i <= m.names.len(),
    ensures
        put_all(ModelMapView::empty(), m.entries().take(i)).names == m.names.take(i),
    decreases i,
{
    let e = ModelMapView::empty();
    if i == 0 {
        assert(m.entries().take(0) =~= Seq::<(Seq<char>, ModelTargetView)>::empty());
        assert(m.names.take(0) =~= Seq::<Seq<char>>::empty());
    } else {
        lemma_put_all_entries_names(m, i - 1);
        lemma_entries(m);
        let pre = m.entries().take(i - 1);
        assert(m.entries().take(i).drop_last() =~= pre);
        assert(m.entries().take(i).last() == m.entries()[i - 1]);
        let before = put_all(e, pre);
        lemma_put_all_wf(e, pre);
        // the i-1-th name is not among the first i-1 names
        assert(!before.names.contains(m.names[i - 1]));
        assert(!before.targets.contains_key(m.names[i - 1]));
        assert(m.names.take(i) =~= m.names.take(i - 1).push(m.names[i - 1]));
    }
}

/// Offered models after rebuilding: a configured model always wins over a
/// remap model of the same name.
pub proof fn law_config_models_win(rs: Seq<RemapView>, cm: ModelMapView, k: Seq<char>)
    requires
        cm.wf(),
        cm.names.contains(k),
    ensures
        all_models_of(rs, cm).get(k) == cm.get(k),
{
    lemma_entries(cm);
    lemma_put_all_get(merged_remap_models(rs), cm.entries());
    let i = choose|i: int| 0 <= i < cm.names.len() && cm.names[i] == k;
    assert(cm.entries()[i] == (cm.names[i], cm.targets[cm.names[i]]));
}

/// The remaps' merged models are well formed when each remap's are.
pub proof fn lemma_merged_wf(rs: Seq<RemapView>)
    requires
        forall|i: int| 0 <= i < rs.len() ==> (#[trigger] rs[i]).models.wf(),
    ensures
        merged_remap_models(rs).wf(),
    decreases rs.len(),
{
    if rs.len() > 0 {
        lemma_merged_wf(rs.drop_last());
        lemma_put_all_wf(merged_remap_models(rs.drop_last()), rs.last().models.entries());
    } else {
        assert(ModelMapView::empty().wf());
    }
}

/// Every model of every remap is offered after rebuilding.
pub proof fn law_remap_models_offered(rs: Seq<RemapView>, cm: ModelMapView, i: int, k: Seq<char>)
    requires
        forall|j: int| 0 <= j < rs.len() ==> (#[trigger] rs[j]).models.wf(),
        0 <= i < rs.len(),
        rs[i].models.names.contains(k),
    ensures
        all_models_of(rs, cm).names.contains(k),
{
    lemma_merged_wf(rs);
    lemma_merged_contains(rs, i, k);
    lemma_put_all_names(merged_remap_models(rs), cm.entries());
}

proof fn lemma_merged_contains(rs: Seq<RemapView>, i: int, k: Seq<char>)
    requires
        forall|j: int| 0 <= j < rs.len() ==> (#[trigger] rs[j]).models.wf(),
        0 <= i < rs.len(),
        rs[i].models.names.contains(k),
    ensures
        merged_remap_models(rs).names.contains(k),
    decreases rs.len(),
{
    let p = rs.drop_last();
    assert forall|j: int| 0 <= j < p.len() implies (#[trigger] p[j]).models.wf() by {
        assert(p[j] == rs[j]);
    }
    lemma_merged_wf(p);
    lemma_entries(rs.last().models);
    lemma_put_all_names(merged_remap_models(p), rs.last().models.entries());
    if i < rs.len() - 1 {
        assert(p[i] == rs[i]);
        lemma_merged_contains(p, i, k);
    }
}

/// Processing builds well-formed model maps.
pub proof fn lemma_config_models_wf(ms: Seq<ModelConfigView>, ps: Seq<ProviderView>)
    ensures
        config_models_view(ms, ps).wf(),
    decreases ms.len(),
{
    if ms.len() == 0 {
        assert(ModelMapView::empty().wf());
    } else {
        lemma_config_models_wf(ms.drop_last(), ps);
        let m = ms.last();
        match lookup_provider(ps, m.provider) {
            Some(p) => lemma_put_wf(
                config_models_view(ms.drop_last(), ps),
                m.name,
                ModelTargetView { base_url: p.base_url, api_key: p.api_key, model: m.model },
            ),
            None => {},
        }
    }
}

proof fn lemma_remaps_view_empty_models(rs: Seq<RemapConfigView>, ps: Seq<ProviderView>)
    ensures
        forall|i: int| 0 <= i < remaps_view(rs, ps).len() ==> (#[trigger] remaps_view(rs, ps)[i]).models
            == ModelMapView::empty(),
    decreases rs.len(),
{
    if rs.len() > 0 {
        lemma_remaps_view_empty_models(rs.drop_last(), ps);
    }
}

proof fn lemma_merged_of_empty(rs: Seq<RemapView>)
    requires
        forall|i: int| 0 <= i < rs.len() ==> (#[trigger] rs[i]).models == ModelMapView::empty(),
    ensures
        merged_remap_models(rs) == ModelMapView::empty(),
    decreases rs.len(),
{
    if rs.len() > 0 {
        let p = rs.drop_last();
        assert forall|i: int| 0 <= i < p.len() implies (#[trigger] p[i]).models
            == ModelMapView::empty() by {
            assert(p[i] == rs[i]);
        }
        lemma_merged_of_empty(p);
        assert(ModelMapView::empty().entries() =~= Seq::<(Seq<char>, ModelTargetView)>::empty());
    }
}

/// Rebuilding the offered models right after processing, before any remap
/// has been populated, changes nothing.
pub proof fn law_update_after_process_keeps_models(c: ConfigView, env: Seq<(String, String)>)
    ensures
        all_models_of(processed_view(c, env).remaps, processed_view(c, env).config_models)
            == processed_view(c, env).all_models,
{
    let v = processed_view(c, env);
    let ps = resolved_providers(c, env);
    lemma_remaps_view_empty_models(c.remaps, ps);
    lemma_merged_of_empty(v.remaps);
    lemma_config_models_wf(c.models, ps);
    law_rebuild_from_entries(v.config_models);
}

/// With no tokens configured every client is let in; with some, a client
/// without a token is refused and one with a configured token is let in.
pub proof fn law_auth(tokens: Map<Seq<char>, Seq<char>>, token: Option<Seq<char>>)
    ensures
        tokens.dom() == Set::<Seq<char>>::empty() ==> auth_allows(tokens, token),
        tokens.dom() != Set::<Seq<char>>::empty() ==> !auth_allows(tokens, None),
        token matches Some(t) && tokens.contains_key(t) ==> auth_allows(tokens, token),
{
}

/// A provider found among resolved providers has a base URL without
/// trailing slashes.
proof fn lemma_lookup_resolved(c: ConfigView, env: Seq<(String, String)>, name: Seq<char>)
    ensures
        lookup_provider(resolved_providers(c, env), name) matches Some(p) ==> (p.base_url.len() == 0
            || p.base_url.last() != '/'),
{
    lemma_lookup_in(resolved_providers(c, env), name);
    if lookup_provider(resolved_providers(c, env), name) is Some {
        let ps = resolved_providers(c, env);
        let i = choose|i: int| 0 <= i < ps.len() && ps[i] == lookup_provider(ps, name)->0;
        lemma_trim_trailing_slashes(c.providers[i].base_url);
    }
}

proof fn lemma_lookup_in(ps: Seq<ProviderView>, name: Seq<char>)
    ensures
        lookup_provider(ps, name) matches Some(p) ==> exists|i: int| 0 <= i < ps.len() && ps[i] == p,
    decreases ps.len(),
{
    if ps.len() > 0 {
        lemma_lookup_in(ps.drop_last(), name);
        if lookup_provider(ps, name) is Some && ps.last().name != name {
            let i = choose|i: int|
                0 <= i < ps.drop_last().len() && ps.drop_last()[i] == lookup_provider(ps, name)->0;
            assert(ps[i] == ps.drop_last()[i]);
        }
        if ps.last().name == name {
            assert(ps[ps.len() - 1] == ps.last());
        }
    }
}

proof fn lemma_config_models_urls(ms: Seq<ModelConfigView>, c: ConfigView, env: Seq<(String, String)>)
    ensures
        forall|k: Seq<char>|
            #[trigger] config_models_view(ms, resolved_providers(c, env)).targets.contains_key(k) ==> {
                let u = config_models_view(ms, resolved_providers(c, env)).targets[k].base_url;
                u.len() == 0 || u.last() != '/'
            },
    decreases ms.len(),
{
    if ms.len() > 0 {
        lemma_config_models_urls(ms.drop_last(), c, env);
        lemma_lookup_resolved(c, env, ms.last().provider);
    }
}

/// The configured models route to base URLs that do not end in `/`.
pub proof fn law_target_urls_trimmed(c: ConfigView, env: Seq<(String, String)>, k: Seq<char>)
    requires
        processed_view(c, env).config_models.targets.contains_key(k),
    ensures
        processed_view(c, env).config_models.targets[k].base_url.len() == 0
            || processed_view(c, env).config_models.targets[k].base_url.last() != '/',
{
    lemma_config_models_urls(c.models, c, env);
}

/// Every model a remap offers after a listing is the remap's prefix
/// followed by a listed id that passes the remap's filters, routed to the
/// remap's provider under that id.
pub proof fn law_remap_models_shape(r: RemapView, ls: Seq<Option<Seq<char>>>, k: Seq<char>)
    requires
        remap_models_view(r, ls).targets.contains_key(k),
    ensures
        ({
            let t = remap_models_view(r, ls).targets[k];
            &&& k == r.prefix + t.model
            &&& model_selected(r.filters, t.model)
            &&& ls.contains(Some(t.model))
            &&& t.base_url == r.base_url
            &&& t.api_key == r.api_key
        }),
    decreases ls.len(),
{
    let p = ls.drop_last();
    let prev = remap_models_view(r, p);
    match ls.last() {
        Some(id) => {
            if model_selected(r.filters, id) && k == r.prefix + id {
                assert(ls[ls.len() - 1] == Some(id));
            } else {
                law_remap_models_shape(r, p, k);
                let t = prev.targets[k];
                let j = choose|j: int| 0 <= j < p.len() && p[j] == Some(t.model);
                assert(ls[j] == p[j]);
            }
        },
        None => {
            law_remap_models_shape(r, p, k);
            let t = prev.targets[k];
            let j = choose|j: int| 0 <= j < p.len() && p[j] == Some(t.model);
            assert(ls[j] == p[j]);
        },
    }
}

/// Every configured client token, resolved, is accepted, under the
/// identifier of its last entry.
pub proof fn law_configured_tokens_accepted(ts: Seq<AuthTokenView>, env: Seq<(String, String)>, i: int)
    requires
        0 <= i < ts.len(),
    ensures
        tokens_view(ts, env).contains_key(resolved_key(ts[i].token, env)),
        auth_allows(tokens_view(ts, env), Some(resolved_key(ts[i].token, env))),
        tokens_view(ts, env)[resolved_key(ts.last().token, env)] == ts.last().id,
    decreases ts.len(),
{
    if i < ts.len() - 1 {
        law_configured_tokens_accepted(ts.drop_last(), env, i);
        assert(ts.drop_last()[i] == ts[i]);
    }
}

/// The accepted tokens are exactly the configured ones, resolved.
pub proof fn lemma_tokens_view_keys(ts: Seq<AuthTokenView>, env: Seq<(String, String)>, k: Seq<char>)
    ensures
        tokens_view(ts, env).contains_key(k) <==> exists|i: int|
            0 <= i < ts.len() && resolved_key(#[trigger] ts[i].token, env) == k,
    decreases ts.len(),
{
    if ts.len() > 0 {
        let p = ts.drop_last();
        lemma_tokens_view_keys(p, env, k);
        if exists|i: int| 0 <= i < p.len() && resolved_key(#[trigger] p[i].token, env) == k {
            let i = choose|i: int| 0 <= i < p.len() && resolved_key(#[trigger] p[i].token, env) == k;
            assert(ts[i] == p[i]);
        }
        if exists|i: int| 0 <= i < ts.len() && resolved_key(#[trigger] ts[i].token, env) == k {
            let i = choose|i: int| 0 <= i < ts.len() && resolved_key(#[trigger] ts[i].token, env) == k;
            if i < ts.len() - 1 {
                assert(p[i] == ts[i]);
            }
        }
    }
}

/// Authorization of a processed configuration: with no token configured
/// every client is let in; otherwise exactly the clients presenting one of
/// the configured tokens (resolved, compared exactly) are let in, and a
/// client presenting none is refused.
pub proof fn law_auth_exact(c: ConfigView, env: Seq<(String, String)>, t: Option<Seq<char>>)
    ensures
        auth_allows(processed_view(c, env).auth_tokens, t) <==> (c.require_auth.len() == 0 || (
        t matches Some(x) && exists|i: int|
            0 <= i < c.require_auth.len() && resolved_key(#[trigger] c.require_auth[i].token, env)
                == x)),
{
    let ts = c.require_auth;
    let m = tokens_view(ts, env);
    assert(processed_view(c, env).auth_tokens == m);
    if ts.len() == 0 {
        assert(m.dom() =~= Set::<Seq<char>>::empty());
    } else {
        let k = resolved_key(ts[ts.len() - 1].token, env);
        lemma_tokens_view_keys(ts, env, k);
        assert(m.dom().contains(k));
        assert(m.dom() != Set::<Seq<char>>::empty());
        if let Some(x) = t {
            lemma_tokens_view_keys(ts, env, x);
        }
    }
}

// ---------------------------------------------------------------------------
// Keys, providers and routing
// ---------------------------------------------------------------------------

/// What a provider lookup finds: the last provider of that name, or none
/// when no provider has it.
pub proof fn lemma_lookup_last(ps: Seq<ProviderView>, name: Seq<char>)
    ensures
        lookup_provider(ps, name) matches Some(p) ==> exists|j: int|
            0 <= j < ps.len() && ps[j] == p && p.name == name && (forall|k: int|
                j < k < ps.len() ==> (#[trigger] ps[k]).name != name),
        lookup_provider(ps, name) is None ==> forall|j: int| 0 <= j < ps.len() ==> (#[trigger] ps[j]).name != name,
    decreases ps.len(),
{
    if ps.len() > 0 {
        let q = ps.drop_last();
        lemma_lookup_last(q, name);
        let n = ps.len() - 1;
        if ps.last().name == name {
            assert(ps[n] == ps.last());
        } else {
            if lookup_provider(q, name) is Some {
                let p = lookup_provider(q, name)->0;
                let j = choose|j: int|
                    0 <= j < q.len() && q[j] == p && p.name == name && (forall|k: int|
                        j < k < q.len() ==> (#[trigger] q[k]).name != name);
                assert(ps[j] == q[j]);
                assert forall|k: int| j < k < ps.len() implies (#[trigger] ps[k]).name != name by {
                    if k < n {
                        assert(ps[k] == q[k]);
                    }
                }
            } else {
                assert forall|j: int| 0 <= j < ps.len() implies (#[trigger] ps[j]).name != name by {
                    if j < n {
                        assert(ps[j] == q[j]);
                    }
                }
            }
        }
    }
}

/// A literal key stands for itself; an `env:NAME` key stands for the value
/// of the first pair of the environment that names `NAME`.
pub proof fn law_key_resolution(key: Seq<char>, env: Seq<(String, String)>)
    ensures
        !is_env_reference(key) ==> resolved_key(key, env) == key,
        is_env_reference(key) ==> forall|j: int|
            0 <= j < env.len() && env[j].0@ == key.skip(4) && (forall|k: int|
                0 <= k < j ==> (#[trigger] env[k]).0@ != key.skip(4)) ==> resolved_key(key, env)
                == env[j].1@,
{
    if is_env_reference(key) {
        assert forall|j: int|
            0 <= j < env.len() && env[j].0@ == key.skip(4) && (forall|k: int|
                0 <= k < j ==> (#[trigger] env[k]).0@ != key.skip(4)) implies resolved_key(key, env)
            == env[j].1@ by {
            lemma_env_first(env, key.skip(4), j);
            assert(env_reference_name(key) == key.skip(4));
        }
    }
}

proof fn lemma_env_first(env: Seq<(String, String)>, name: Seq<char>, j: int)
    requires
        0 <= j < env.len(),
        env[j].0@ == name,
        forall|k: int| 0 <= k < j ==> (#[trigger] env[k]).0@ != name,
    ensures
        crate::config::env_lookup(env, name) == Some(env[j].1@),
    decreases env.len(),
{
    if j < env.len() - 1 {
        let q = env.drop_last();
        assert forall|k: int| 0 <= k < j implies (#[trigger] q[k]).0@ != name by {
            assert(q[k] == env[k]);
        }
        assert(q[j] == env[j]);
        lemma_env_first(q, name, j);
    } else {
        let q = env.drop_last();
        crate::config::lemma_first_hit_none(q, crate::config::env_match(name));
        assert forall|k: int| 0 <= k < q.len() implies (crate::config::env_match(name))(
            #[trigger] q[k],
        ) is None by {
            assert(q[k] == env[k]);
        }
    }
}

/// A client token written literally in the configuration is accepted,
/// exactly as written.
pub proof fn law_literal_token_accepted(c: ConfigView, env: Seq<(String, String)>, i: int)
    requires
        0 <= i < c.require_auth.len(),
        !is_env_reference(c.require_auth[i].token),
    ensures
        auth_allows(processed_view(c, env).auth_tokens, Some(c.require_auth[i].token)),
{
    law_key_resolution(c.require_auth[i].token, env);
    law_configured_tokens_accepted(c.require_auth, env, i);
}

/// The settings a resolved provider carries: trimmed URL and resolved key.
pub open spec fn provider_settings_match(
    p: ProviderView,
    base_url: Seq<char>,
    api_key: Option<Seq<char>>,
    env: Seq<(String, String)>,
) -> bool {
    &&& base_url == trim_trailing_slashes(p.base_url)
    &&& api_key == match p.api_key {
        Some(k) => Some(resolved_key(k, env)),
        None => None,
    }
}

proof fn lemma_remaps_from_lookup(rs: Seq<RemapConfigView>, ps: Seq<ProviderView>, i: int)
    requires
        0 <= i < remaps_view(rs, ps).len(),
    ensures
        ({
            let r = remaps_view(rs, ps)[i];
            &&& lookup_provider(ps, r.provider) matches Some(p) && p.name == r.provider
                && p.base_url == r.base_url && p.api_key == r.api_key
            &&& r.models == crate::model_map::ModelMapView::empty()
            &&& exists|m: int|
                0 <= m < rs.len() && rs[m].prefix == r.prefix && rs[m].provider == r.provider
                    && rs[m].filters == r.filters
        }),
    decreases rs.len(),
{
    let q = rs.drop_last();
    let prev = remaps_view(q, ps);
    let m = rs.last();
    if i < prev.len() {
        lemma_remaps_from_lookup(q, ps, i);
        match lookup_provider(ps, m.provider) {
            Some(_) => assert(remaps_view(rs, ps)[i] == prev[i]),
            None => {},
        }
        let r = prev[i];
        let k = choose|k: int|
            0 <= k < q.len() && q[k].prefix == r.prefix && q[k].provider == r.provider
                && q[k].filters == r.filters;
        assert(rs[k] == q[k]);
    } else {
        lemma_lookup_last(ps, m.provider);
        assert(rs[rs.len() - 1] == m);
    }
}

/// Every kept remap routes with the settings of its provider: the last
/// configured provider of that name, with its base URL trimmed and its key
/// resolved (so a remap and a configured model on the same provider use the
/// same URL and key); it comes from a configured remap with the same
/// prefix, provider and filters, and it offers no models yet.
pub proof fn law_remaps_route_with_provider_settings(c: ConfigView, env: Seq<(String, String)>, i: int)
    requires
        0 <= i < processed_view(c, env).remaps.len(),
    ensures
        ({
            let r = processed_view(c, env).remaps[i];
            &&& exists|j: int|
                0 <= j < c.providers.len() && c.providers[j].name == r.provider && (forall|k: int|
                    j < k < c.providers.len() ==> (#[trigger] c.providers[k]).name != r.provider)
                    && provider_settings_match(c.providers[j], r.base_url, r.api_key, env)
            &&& exists|m: int|
                0 <= m < c.remaps.len() && c.remaps[m].prefix == r.prefix && c.remaps[m].provider
                    == r.provider && c.remaps[m].filters == r.filters
            &&& r.models.names.len() == 0
        }),
{
    let ps = resolved_providers(c, env);
    let r = processed_view(c, env).remaps[i];
    lemma_remaps_from_lookup(c.remaps, ps, i);
    lemma_lookup_last(ps, r.provider);
    let p = lookup_provider(ps, r.provider)->0;
    let j = choose|j: int|
        0 <= j < ps.len() && ps[j] == p && p.name == r.provider && (forall|k: int|
            j < k < ps.len() ==> (#[trigger] ps[k]).name != r.provider);
    assert(ps[j] == crate::config::resolve_provider(c.providers[j], env));
    assert forall|k: int| j < k < c.providers.len() implies (#[trigger] c.providers[k]).name
        != r.provider by {
        assert(ps[k].name == c.providers[k].name);
    }
}

proof fn lemma_config_models_from_lookup(ms: Seq<ModelConfigView>, ps: Seq<ProviderView>, k: Seq<char>)
    requires
        config_models_view(ms, ps).targets.contains_key(k),
    ensures
        exists|m: int|
            0 <= m < ms.len() && #[trigger] ms[m].name == k && (lookup_provider(ps, ms[m].provider) matches Some(
                p,
            ) && p.base_url == config_models_view(ms, ps).targets[k].base_url && p.api_key
                == config_models_view(ms, ps).targets[k].api_key && ms[m].model
                == config_models_view(ms, ps).targets[k].model),
    decreases ms.len(),
{
    let q = ms.drop_last();
    let last = ms.last();
    let n = ms.len() - 1;
    if lookup_provider(ps, last.provider) is Some && last.name == k {
        assert(ms[n] == last);
    } else {
        lemma_config_models_from_lookup(q, ps, k);
        let m = choose|m: int|
            0 <= m < q.len() && #[trigger] q[m].name == k && (lookup_provider(ps, q[m].provider) matches Some(
                p,
            ) && p.base_url == config_models_view(q, ps).targets[k].base_url && p.api_key
                == config_models_view(q, ps).targets[k].api_key && q[m].model
                == config_models_view(q, ps).targets[k].model);
        assert(ms[m] == q[m]);
    }
}

/// Every configured model routes to its provider: a configured model of
/// that name names a provider whose last configuration gives the target's
/// base URL (trimmed) and key (resolved), and the target's model.
pub proof fn law_config_models_route_with_provider_settings(
    c: ConfigView,
    env: Seq<(String, String)>,
    k: Seq<char>,
)
    requires
        processed_view(c, env).config_models.targets.contains_key(k),
    ensures
        ({
            let t = processed_view(c, env).config_models.targets[k];
            exists|m: int, j: int|
                0 <= m < c.models.len() && 0 <= j < c.providers.len() && #[trigger] c.models[m].name
                    == k && c.models[m].model == t.model && #[trigger] c.providers[j].name
                    == c.models[m].provider && (forall|x: int|
                    j < x < c.providers.len() ==> (#[trigger] c.providers[x]).name
                        != c.models[m].provider) && provider_settings_match(
                    c.providers[j],
                    t.base_url,
                    t.api_key,
                    env,
                )
        }),
{
    let ps = resolved_providers(c, env);
    let t = processed_view(c, env).config_models.targets[k];
    lemma_config_models_from_lookup(c.models, ps, k);
    let m = choose|m: int|
        0 <= m < c.models.len() && #[trigger] c.models[m].name == k && (lookup_provider(
            ps,
            c.models[m].provider,
        ) matches Some(p) && p.base_url == t.base_url && p.api_key == t.api_key && c.models[m].model
            == t.model);
    let name = c.models[m].provider;
    lemma_lookup_last(ps, name);
    let p = lookup_provider(ps, name)->0;
    let j = choose|j: int|
        0 <= j < ps.len() && ps[j] == p && p.name == name && (forall|x: int|
            j < x < ps.len() ==> (#[trigger] ps[x]).name != name);
    assert(ps[j] == crate::config::resolve_provider(c.providers[j], env));
    assert forall|x: int| j < x < c.providers.len() implies (#[trigger] c.providers[x]).name
        != name by {
        assert(ps[x].name == c.providers[x].name);
    }
}

/// A remap and a configured model on the same provider route with the same
/// base URL and the same (resolved) key.
pub proof fn law_remap_and_model_share_provider_settings(
    c: ConfigView,
    env: Seq<(String, String)>,
    i: int,
    k: Seq<char>,
    m: int,
)
    requires
        0 <= i < processed_view(c, env).remaps.len(),
        processed_view(c, env).config_models.targets.contains_key(k),
        0 <= m < c.models.len(),
        c.models[m].name == k,
        (forall|x: int| m < x < c.models.len() ==> (#[trigger] c.models[x]).name != k),
        c.models[m].provider == processed_view(c, env).remaps[i].provider,
    ensures
        processed_view(c, env).config_models.targets[k].base_url == processed_view(c, env).remaps[i].base_url,
        processed_view(c, env).config_models.targets[k].api_key == processed_view(c, env).remaps[i].api_key,
{
    let ps = resolved_providers(c, env);
    lemma_remaps_from_lookup(c.remaps, ps, i);
    lemma_config_model_last(c.models, ps, m);
}

/// The target of a model name comes from the last configured model of that
/// name, when that model's provider is known.
proof fn lemma_config_model_last(ms: Seq<ModelConfigView>, ps: Seq<ProviderView>, m: int)
    requires
        0 <= m < ms.len(),
        lookup_provider(ps, ms[m].provider) is Some,
        (forall|x: int| m < x < ms.len() ==> (#[trigger] ms[x]).name != ms[m].name),
    ensures
        config_models_view(ms, ps).targets.contains_key(ms[m].name),
        lookup_provider(ps, ms[m].provider) matches Some(p) && p.base_url == config_models_view(
            ms,
            ps,
        ).targets[ms[m].name].base_url && p.api_key == config_models_view(ms, ps).targets[ms[m].name].api_key,
    decreases ms.len(),
{
    let q = ms.drop_last();
    let n = ms.len() - 1;
    let k = ms[m].name;
    if m < n {
        assert(q[m] == ms[m]);
        assert(ms.last().name != k);
        assert forall|x: int| m < x < q.len() implies (#[trigger] q[x]).name != k by {
            assert(q[x] == ms[x]);
        }
        lemma_config_model_last(q, ps, m);
    } else {
        assert(ms.last() == ms[m]);
    }
}

// ---------------------------------------------------------------------------
// Filters and listings
// ---------------------------------------------------------------------------

/// Filters select a model exactly when there are none or at least one of
/// them matches it: one matching filter suffices, and with filters none of
/// which matches the model is left out.
pub proof fn law_filter_selection(filters: Seq<Seq<char>>, model: Seq<char>, i: int)
    ensures
        filters.len() == 0 ==> model_selected(filters, model),
        0 <= i < filters.len() && regex_is_match(filters[i], model) ==> model_selected(filters, model),
        filters.len() > 0 && (forall|j: int| 0 <= j < filters.len() ==> !regex_is_match(#[trigger] filters[j], model))
            ==> !model_selected(filters, model),
{
}

/// A listing is offered completely: every listed id that passes the filters
/// (no filters, or one that matches) is offered as the prefix followed by
/// the id, routed to that id at the remap's provider.
pub proof fn law_listing_offered_completely(r: RemapView, ls: Seq<Option<Seq<char>>>, i: int, f: int)
    requires
        0 <= i < ls.len(),
        ls[i] is Some,
        r.filters.len() == 0 || (0 <= f < r.filters.len() && regex_is_match(r.filters[f], ls[i]->0)),
    ensures
        remap_models_view(r, ls).targets.contains_key(r.prefix + ls[i]->0),
        remap_models_view(r, ls).targets[r.prefix + ls[i]->0] == (crate::model_map::ModelTargetView {
            base_url: r.base_url,
            api_key: r.api_key,
            model: ls[i]->0,
        }),
    decreases ls.len(),
{
    let id = ls[i]->0;
    let key = r.prefix + id;
    let q = ls.drop_last();
    let n = ls.len() - 1;
    law_filter_selection(r.filters, id, f);
    if i < n {
        assert(q[i] == ls[i]);
        law_listing_offered_completely(r, q, i, f);
        match ls.last() {
            Some(id2) => {
                if model_selected(r.filters, id2) && r.prefix + id2 == key {
                    assert(id2 =~= (r.prefix + id2).skip(r.prefix.len() as int));
                    assert(id =~= key.skip(r.prefix.len() as int));
                }
            },
            None => {},
        }
    } else {
        assert(ls.last() == Some(id));
    }
}

// ---------------------------------------------------------------------------
// Forwarded headers
// ---------------------------------------------------------------------------

/// Exactly the eight hop-by-hop headers of HTTP/1.1 are held back; every
/// other header, such as `content-length` or `content-type`, is forwarded.
pub proof fn law_hop_by_hop_exact(n: Seq<char>)
    ensures
        hop_by_hop_headers().contains(n) <==> (n == "transfer-encoding"@ || n == "te"@ || n
            == "connection"@ || n == "trailer"@ || n == "upgrade"@ || n == "proxy-authorization"@
            || n == "proxy-authenticate"@ || n == "keep-alive"@),
        !hop_by_hop_headers().contains("content-length"@),
        !hop_by_hop_headers().contains("content-type"@),
        !hop_by_hop_headers().contains("authorization"@),
{
    let hs = hop_by_hop_headers();
    if hs.contains(n) {
        let i = choose|i: int| 0 <= i < hs.len() && hs[i] == n;
        assert(0 <= i < 8);
    }
    if n == "transfer-encoding"@ { assert(hs[0] == n); }
    if n == "te"@ { assert(hs[1] == n); }
    if n == "connection"@ { assert(hs[2] == n); }
    if n == "trailer"@ { assert(hs[3] == n); }
    if n == "upgrade"@ { assert(hs[4] == n); }
    if n == "proxy-authorization"@ { assert(hs[5] == n); }
    if n == "proxy-authenticate"@ { assert(hs[6] == n); }
    if n == "keep-alive"@ { assert(hs[7] == n); }
    reveal_strlit("transfer-encoding");
    reveal_strlit("te");
    reveal_strlit("connection");
    reveal_strlit("trailer");
    reveal_strlit("upgrade");
    reveal_strlit("proxy-authorization");
    reveal_strlit("proxy-authenticate");
    reveal_strlit("keep-alive");
    reveal_strlit("content-length");
    reveal_strlit("content-type");
    reveal_strlit("authorization");
    assert forall|x: Seq<char>| #![auto] hs.contains(x) implies x != "content-length"@ && x
        != "content-type"@ && x != "authorization"@ by {
        let i = choose|i: int| 0 <= i < hs.len() && hs[i] == x;
        assert(0 <= i < 8);
        if x == "content-length"@ || x == "content-type"@ || x == "authorization"@ {
            assert(x.len() == hs[i].len());
            assert(x[0] == hs[i][0]);
            assert(x[1] == hs[i][1]);
            assert(x[2] == hs[i][2]);
        }
    }
}

} // verus!
