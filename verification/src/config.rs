//! The proxy's configuration, and how it is turned into routing tables.

use vstd::prelude::*;
use vstd::string::*;

use crate::auth::TokenMap;
use crate::filter::{regex_compiles, regex_is_match, Filter};
use crate::model_map::{
    clone_opt_string, opt_str, put_all, ModelMap, ModelMapView, ModelTarget, ModelTargetView,
};
use crate::text::{
    env_reference_name, env_var_name, is_env_reference, trim_end_slashes, trim_trailing_slashes,
};

verus! {

// ---------------------------------------------------------------------------
// Configuration as read from the configuration file
// ---------------------------------------------------------------------------

/// An upstream provider: a name, an OpenAI-compatible base URL and an
/// optional API key (literal, or `env:NAME` to read it from the environment).
pub struct ProviderConfig {
    pub name: String,
    pub base_url: String,
    pub api_key: Option<String>,
}

pub struct ProviderView {
    pub name: Seq<char>,
    pub base_url: Seq<char>,
    pub api_key: Option<Seq<char>>,
}

impl View for ProviderConfig {
    type V = ProviderView;

    open spec fn view(&self) -> ProviderView {
        ProviderView { name: self.name@, base_url: self.base_url@, api_key: opt_str(self.api_key) }
    }
}

/// A virtual model: the name clients use, the provider, and the model name
/// that provider knows.
pub struct ModelConfig {
    pub name: String,
    pub provider: String,
    pub model: String,
}

pub struct ModelConfigView {
    pub name: Seq<char>,
    pub provider: Seq<char>,
    pub model: Seq<char>,
}

impl View for ModelConfig {
    type V = ModelConfigView;

    open spec fn view(&self) -> ModelConfigView {
        ModelConfigView { name: self.name@, provider: self.provider@, model: self.model@ }
    }
}

/// A prefix remap: every model of `provider` (optionally only those that
/// one of `filters` matches) is offered as `prefix` followed by its name.
pub struct RemapConfig {
    pub prefix: String,
    pub provider: String,
    pub filters: Option<Vec<String>>,
}

pub struct RemapConfigView {
    pub prefix: Seq<char>,
    pub provider: Seq<char>,
    pub filters: Seq<Seq<char>>,
}

/// The patterns of an optional list (none when absent).
pub open spec fn patterns_of(filters: Option<Vec<String>>) -> Seq<Seq<char>> {
    match filters {
        Some(v) => v@.map_values(|s: String| s@),
        None => Seq::empty(),
    }
}

impl View for RemapConfig {
    type V = RemapConfigView;

    open spec fn view(&self) -> RemapConfigView {
        RemapConfigView {
            prefix: self.prefix@,
            provider: self.provider@,
            filters: patterns_of(self.filters),
        }
    }
}

/// A client bearer token (literal or `env:NAME`) with an identifier.
pub struct AuthToken {
    pub id: String,
    pub token: String,
}

pub struct AuthTokenView {
    pub id: Seq<char>,
    pub token: Seq<char>,
}

impl View for AuthToken {
    type V = AuthTokenView;

    open spec fn view(&self) -> AuthTokenView {
        AuthTokenView { id: self.id@, token: self.token@ }
    }
}

/// The whole configuration file.
pub struct Config {
    pub connect_timeout: Option<u64>,
    pub read_timeout: Option<u64>,
    pub total_timeout: Option<u64>,
    pub providers: Vec<ProviderConfig>,
    pub models: Vec<ModelConfig>,
    pub remaps: Option<Vec<RemapConfig>>,
    pub require_auth: Option<Vec<AuthToken>>,
}

pub struct ConfigView {
    pub connect_timeout: Option<u64>,
    pub read_timeout: Option<u64>,
    pub total_timeout: Option<u64>,
    pub providers: Seq<ProviderView>,
    pub models: Seq<ModelConfigView>,
    /// An absent list reads as an empty one.
    pub remaps: Seq<RemapConfigView>,
    /// An absent list reads as an empty one.
    pub require_auth: Seq<AuthTokenView>,
}

impl View for Config {
    type V = ConfigView;

    open spec fn view(&self) -> ConfigView {
        ConfigView {
            connect_timeout: self.connect_timeout,
            read_timeout: self.read_timeout,
            total_timeout: self.total_timeout,
            providers: self.providers@.map_values(|p: ProviderConfig| p@),
            models: self.models@.map_values(|m: ModelConfig| m@),
            remaps: match self.remaps {
                Some(v) => v@.map_values(|r: RemapConfig| r@),
                None => Seq::empty(),
            },
            require_auth: match self.require_auth {
                Some(v) => v@.map_values(|a: AuthToken| a@),
                None => Seq::empty(),
            },
        }
    }
}

// ---------------------------------------------------------------------------
// The environment and `env:` keys
// ---------------------------------------------------------------------------

/// Matches a `(name, value)` pair against variable `name`.
pub open spec fn env_match(name: Seq<char>) -> spec_fn((String, String)) -> Option<Seq<char>> {
    |pair: (String, String)|
        if pair.0@ == name {
            Some(pair.1@)
        } else {
            None
        }
}

/// The value of variable `name` in an environment given as `(name, value)`
/// pairs; when a name occurs more than once, its first pair counts.
pub open spec fn env_lookup(env: Seq<(String, String)>, name: Seq<char>) -> Option<Seq<char>> {
    first_hit(env, env_match(name))
}

/// A key resolves when it is literal, or when the variable it names is set.
pub open spec fn key_resolves(key: Seq<char>, env: Seq<(String, String)>) -> bool {
    is_env_reference(key) ==> env_lookup(env, env_reference_name(key)) is Some
}

/// What a key stands for: the variable's value for `env:NAME`, else the key itself.
pub open spec fn resolved_key(key: Seq<char>, env: Seq<(String, String)>) -> Seq<char> {
    if is_env_reference(key) {
        match env_lookup(env, env_reference_name(key)) {
            Some(v) => v,
            None => Seq::empty(),
        }
    } else {
        key
    }
}

/// Looks `name` up in the environment.
pub fn lookup_env(env: &Vec<(String, String)>, name: &String) -> (res: Option<String>)
    ensures
        opt_str(res) == env_lookup(env@, name@),
{
    let n = env.len();
    let mut i: usize = 0;
    assert(env@.take(0) =~= Seq::<(String, String)>::empty());
    while i < n
        invariant
            n == env@.len(),
            i <= n,
            first_hit(env@.take(i as int), env_match(name@)) is None,
        decreases n - i,
    {
        proof {
            lemma_first_hit_step(env@, env_match(name@), i as int);
        }
        if env[i].0 == *name {
            proof {
                lemma_first_hit_prefix(env@, env_match(name@), i + 1);
            }
            return Some(env[i].1.clone());
        }
        i = i + 1;
    }
    assert(env@.take(n as int) =~= env@);
    None
}

/// Whether `key` resolves in `env`: it is literal, or its variable is set.
pub fn key_is_resolvable(key: &str, env: &Vec<(String, String)>) -> (res: bool)
    ensures
        res == key_resolves(key@, env@),
{
    match env_var_name(key) {
        Some(name) => lookup_env(env, &name).is_some(),
        None => true,
    }
}

/// Resolves an API key or token: `env:NAME` (the `env:` part in any case)
/// is replaced by the value of variable `NAME`; any other key stands for
/// itself. The variable must be set.
pub fn resolve_api_key(key: &str, env: &Vec<(String, String)>) -> (res: String)
    requires
        key_resolves(key@, env@),
    ensures
        res@ == resolved_key(key@, env@),
{
    match env_var_name(key) {
        Some(name) => match lookup_env(env, &name) {
            Some(v) => v,
            None => vstd::pervasive::unreached(),
        },
        None => String::from_str(key),
    }
}

// ---------------------------------------------------------------------------
// The processed configuration
// ---------------------------------------------------------------------------

/// A provider as the proxy uses it: base URL without trailing slashes and
/// the API key resolved.
pub open spec fn resolve_provider(p: ProviderView, env: Seq<(String, String)>) -> ProviderView {
    ProviderView {
        name: p.name,
        base_url: trim_trailing_slashes(p.base_url),
        api_key: match p.api_key {
            Some(k) => Some(resolved_key(k, env)),
            None => None,
        },
    }
}

pub open spec fn resolved_providers(c: ConfigView, env: Seq<(String, String)>) -> Seq<ProviderView> {
    c.providers.map_values(|p: ProviderView| resolve_provider(p, env))
}

/// The provider called `name`; of several, the last one configured wins.
pub open spec fn lookup_provider(ps: Seq<ProviderView>, name: Seq<char>) -> Option<ProviderView>
    decreases ps.len(),
{
    if ps.len() == 0 {
        None
    } else if ps.last().name == name {
        Some(ps.last())
    } else {
        lookup_provider(ps.drop_last(), name)
    }
}

/// The abstract value of a processed remap.
pub struct RemapView {
    pub prefix: Seq<char>,
    pub provider: Seq<char>,
    pub base_url: Seq<char>,
    pub api_key: Option<Seq<char>>,
    pub filters: Seq<Seq<char>>,
    pub models: ModelMapView,
}

/// The remaps whose provider is known, in order, with that provider's URL
/// and key and no models yet; remaps naming an unknown provider are dropped.
pub open spec fn remaps_view(rs: Seq<RemapConfigView>, ps: Seq<ProviderView>) -> Seq<RemapView>
    decreases rs.len(),
{
    if rs.len() == 0 {
        Seq::empty()
    } else {
        let prev = remaps_view(rs.drop_last(), ps);
        let m = rs.last();
        match lookup_provider(ps, m.provider) {
            Some(p) => prev.push(
                RemapView {
                    prefix: m.prefix,
                    provider: p.name,
                    base_url: p.base_url,
                    api_key: p.api_key,
                    filters: m.filters,
                    models: ModelMapView::empty(),
                },
            ),
            None => prev,
        }
    }
}

/// Accepted tokens (resolved) and their identifiers; a later entry for the
/// same token replaces the identifier.
pub open spec fn tokens_view(ts: Seq<AuthTokenView>, env: Seq<(String, String)>) -> Map<
    Seq<char>,
    Seq<char>,
>
    decreases ts.len(),
{
    if ts.len() == 0 {
        Map::empty()
    } else {
        tokens_view(ts.drop_last(), env).insert(resolved_key(ts.last().token, env), ts.last().id)
    }
}

/// The virtual models whose provider is known, inserted in order.
pub open spec fn config_models_view(ms: Seq<ModelConfigView>, ps: Seq<ProviderView>) -> ModelMapView
    decreases ms.len(),
{
    if ms.len() == 0 {
        ModelMapView::empty()
    } else {
        let prev = config_models_view(ms.drop_last(), ps);
        let m = ms.last();
        match lookup_provider(ps, m.provider) {
            Some(p) => prev.put(
                m.name,
                ModelTargetView { base_url: p.base_url, api_key: p.api_key, model: m.model },
            ),
            None => prev,
        }
    }
}

/// The abstract value of a processed configuration.
pub struct ProcessedView {
    pub remaps: Seq<RemapView>,
    pub auth_tokens: Map<Seq<char>, Seq<char>>,
    pub config_models: ModelMapView,
    pub all_models: ModelMapView,
}

/// What processing a configuration yields in a given environment. The
/// models offered to clients are at first the configured ones.
pub open spec fn processed_view(c: ConfigView, env: Seq<(String, String)>) -> ProcessedView {
    let ps = resolved_providers(c, env);
    let cm = config_models_view(c.models, ps);
    ProcessedView {
        remaps: remaps_view(c.remaps, ps),
        auth_tokens: tokens_view(c.require_auth, env),
        config_models: cm,
        all_models: cm,
    }
}

// ---------------------------------------------------------------------------
// What can make a configuration unusable
// ---------------------------------------------------------------------------

pub enum ConfigProblem {
    MissingEnvVar(Seq<char>),
    BadFilter(Seq<char>),
}

/// The first element of `s` for which `f` reports something.
pub open spec fn first_hit<A, B>(s: Seq<A>, f: spec_fn(A) -> Option<B>) -> Option<B>
    decreases s.len(),
{
    if s.len() == 0 {
        None
    } else {
        match first_hit(s.drop_last(), f) {
            Some(b) => Some(b),
            None => f(s.last()),
        }
    }
}

/// No element is reported exactly when `first_hit` finds nothing.
pub proof fn lemma_first_hit_none<A, B>(s: Seq<A>, f: spec_fn(A) -> Option<B>)
    ensures
        first_hit(s, f) is None <==> forall|i: int| 0 <= i < s.len() ==> f(#[trigger] s[i]) is None,
    decreases s.len(),
{
    if s.len() > 0 {
        let t = s.drop_last();
        lemma_first_hit_none(t, f);
        if first_hit(s, f) is None {
            assert forall|i: int| 0 <= i < s.len() implies f(#[trigger] s[i]) is None by {
                if i < t.len() {
                    assert(t[i] == s[i]);
                }
            }
        } else {
            if first_hit(t, f) is Some {
                let i = choose|i: int| 0 <= i < t.len() && f(#[trigger] t[i]) is Some;
                assert(s[i] == t[i]);
            }
        }
    }
}

/// `first_hit` over one more element.
pub proof fn lemma_first_hit_step<A, B>(s: Seq<A>, f: spec_fn(A) -> Option<B>, i: int)
    requires
        0 <= i < s.len(),
    ensures
        first_hit(s.take(i + 1), f) == (match first_hit(s.take(i), f) {
            Some(b) => Some(b),
            None => f(s[i]),
        }),
{
    assert(s.take(i + 1).drop_last() =~= s.take(i));
}

/// Once a prefix reports something, the whole sequence reports the same.
pub proof fn lemma_first_hit_prefix<A, B>(s: Seq<A>, f: spec_fn(A) -> Option<B>, k: int)
    requires
        0 <= k <= s.len(),
        first_hit(s.take(k), f) is Some,
    ensures
        first_hit(s, f) == first_hit(s.take(k), f),
    decreases s.len() - k,
{
    if k == s.len() {
        assert(s.take(k) =~= s);
    } else {
        let t = s.drop_last();
        assert(t.take(k) =~= s.take(k));
        lemma_first_hit_prefix(t, f, k);
    }
}

pub open spec fn key_problem(key: Seq<char>, env: Seq<(String, String)>) -> Option<ConfigProblem> {
    if key_resolves(key, env) {
        None
    } else {
        Some(ConfigProblem::MissingEnvVar(env_reference_name(key)))
    }
}

pub open spec fn provider_check(env: Seq<(String, String)>) -> spec_fn(ProviderView) -> Option<
    ConfigProblem,
> {
    |p: ProviderView|
        match p.api_key {
            Some(k) => key_problem(k, env),
            None => None,
        }
}

pub open spec fn filter_check() -> spec_fn(Seq<char>) -> Option<ConfigProblem> {
    |pattern: Seq<char>|
        if regex_compiles(pattern) {
            None
        } else {
            Some(ConfigProblem::BadFilter(pattern))
        }
}

pub open spec fn remap_check(ps: Seq<ProviderView>) -> spec_fn(RemapConfigView) -> Option<
    ConfigProblem,
> {
    |m: RemapConfigView|
        if lookup_provider(ps, m.provider) is Some {
            first_hit(m.filters, filter_check())
        } else {
            None
        }
}

pub open spec fn token_check(env: Seq<(String, String)>) -> spec_fn(AuthTokenView) -> Option<
    ConfigProblem,
> {
    |t: AuthTokenView| key_problem(t.token, env)
}

/// The first problem met when processing: provider keys in order, then the
/// filters of the remaps that are kept, then client tokens.
pub open spec fn config_problem(c: ConfigView, env: Seq<(String, String)>) -> Option<ConfigProblem> {
    match first_hit(c.providers, provider_check(env)) {
        Some(p) => Some(p),
        None => match first_hit(c.remaps, remap_check(resolved_providers(c, env))) {
            Some(p) => Some(p),
            None => first_hit(c.require_auth, token_check(env)),
        },
    }
}

// ---------------------------------------------------------------------------
// Processed configuration: executable side
// ---------------------------------------------------------------------------

/// A remap whose provider is known: what is needed to list that provider's
/// models and to route requests for them.
pub struct ProcessedRemap {
    prefix: String,
    provider: String,
    base_url: String,
    api_key: Option<String>,
    filters: Vec<Filter>,
    models: ModelMap,
}

impl View for ProcessedRemap {
    type V = RemapView;

    closed spec fn view(&self) -> RemapView {
        RemapView {
            prefix: self.prefix@,
            provider: self.provider@,
            base_url: self.base_url@,
            api_key: opt_str(self.api_key),
            filters: self.filters@.map_values(|f: Filter| f@),
            models: self.models@,
        }
    }
}

impl ProcessedRemap {
    pub closed spec fn wf(&self) -> bool {
        self.models.wf()
    }

    /// The prefix that this remap puts before each model name.
    pub fn prefix(&self) -> (res: String)
        ensures
            res@ == self@.prefix,
    {
        self.prefix.clone()
    }
}

/// The configuration as the proxy uses it.
pub struct ProcessedConfig {
    pub remaps: Vec<ProcessedRemap>,
    auth_tokens: TokenMap,
    config_models: ModelMap,
    all_models: ModelMap,
}

impl View for ProcessedConfig {
    type V = ProcessedView;

    closed spec fn view(&self) -> ProcessedView {
        ProcessedView {
            remaps: self.remaps@.map_values(|r: ProcessedRemap| r@),
            auth_tokens: self.auth_tokens@,
            config_models: self.config_models@,
            all_models: self.all_models@,
        }
    }
}

impl ProcessedConfig {
    pub closed spec fn wf(&self) -> bool {
        &&& self.auth_tokens.wf()
        &&& self.config_models.wf()
        &&& self.all_models.wf()
        &&& forall|i: int| 0 <= i < self.remaps@.len() ==> (#[trigger] self.remaps@[i]).wf()
    }

    /// The views of a well-formed processed configuration are well formed.
    pub proof fn lemma_views_wf(&self)
        requires
            self.wf(),
        ensures
            self@.config_models.wf(),
            self@.all_models.wf(),
            forall|i: int| 0 <= i < self@.remaps.len() ==> (#[trigger] self@.remaps[i]).models.wf(),
    {
        self.config_models.lemma_view_wf();
        self.all_models.lemma_view_wf();
        assert forall|i: int| 0 <= i < self@.remaps.len() implies (#[trigger] self@.remaps[i]).models.wf() by {
            assert(self@.remaps[i] == self.remaps@[i]@);
            assert(self.remaps@[i].wf());
            self.remaps@[i].models.lemma_view_wf();
        }
    }
}

/// Where the provider called `name` is in `ps`; of several, the last.
fn find_provider(ps: &Vec<ProviderConfig>, name: &String) -> (res: Option<usize>)
    ensures
        match res {
            Some(i) => i < ps@.len() && lookup_provider(ps@.map_values(|p: ProviderConfig| p@), name@)
                == Some(ps@[i as int]@),
            None => lookup_provider(ps@.map_values(|p: ProviderConfig| p@), name@) is None,
        },
{
    let ghost views = ps@.map_values(|p: ProviderConfig| p@);
    let mut i: usize = ps.len();
    assert(views.take(i as int) =~= views);
    while i > 0
        invariant
            i <= ps@.len(),
            views == ps@.map_values(|p: ProviderConfig| p@),
            lookup_provider(views.take(i as int), name@) == lookup_provider(views, name@),
        decreases i,
    {
        assert(views.take(i as int).drop_last() =~= views.take(i - 1));
        assert(views.take(i as int).last() == ps@[i - 1]@);
        if ps[i - 1].name == *name {
            return Some(i - 1);
        }
        i = i - 1;
    }
    None
}

/// Compiles every pattern of an optional filter list.
fn compile_filters(filters: &Option<Vec<String>>) -> (res: Vec<Filter>)
    requires
        forall|j: int|
            0 <= j < patterns_of(*filters).len() ==> regex_compiles(#[trigger] patterns_of(*filters)[j]),
    ensures
        res@.map_values(|f: Filter| f@) == patterns_of(*filters),
{
    let mut res: Vec<Filter> = Vec::new();
    match filters {
        None => {
            assert(res@.map_values(|f: Filter| f@) =~= patterns_of(*filters));
            res
        },
        Some(pats) => {
            let ghost want = patterns_of(*filters);
            let n = pats.len();
            let mut i: usize = 0;
            while i < n
                invariant
                    n == pats@.len(),
                    i <= n,
                    want == pats@.map_values(|s: String| s@),
                    forall|j: int| 0 <= j < want.len() ==> regex_compiles(#[trigger] want[j]),
                    res@.map_values(|f: Filter| f@) =~= want.take(i as int),
                decreases n - i,
            {
                assert(want[i as int] == pats@[i as int]@);
                match Filter::compile(pats[i].as_str()) {
                    Some(f) => {
                        res.push(f);
                        assert(want.take(i + 1) =~= want.take(i as int).push(want[i as int]));
                        assert(res@.map_values(|f: Filter| f@) =~= want.take(i as int).push(
                            want[i as int],
                        ));
                    },
                    None => {
                        return vstd::pervasive::unreached();
                    },
                }
                i = i + 1;
            }
            assert(want.take(n as int) =~= want);
            res
        },
    }
}

impl Config {
    /// The providers with URLs trimmed and keys resolved, in order.
    fn resolve_providers(&self, env: &Vec<(String, String)>) -> (res: Vec<ProviderConfig>)
        requires
            forall|i: int|
                0 <= i < self@.providers.len() ==> (provider_check(env@))(#[trigger] self@.providers[i])
                    is None,
        ensures
            res@.map_values(|p: ProviderConfig| p@) == resolved_providers(self@, env@),
    {
        let ghost want = resolved_providers(self@, env@);
        let n = self.providers.len();
        let mut res: Vec<ProviderConfig> = Vec::new();
        let mut i: usize = 0;
        while i < n
            invariant
                n == self.providers@.len(),
                i <= n,
                want == resolved_providers(self@, env@),
                forall|i: int|
                    0 <= i < self@.providers.len() ==> (provider_check(env@))(
                        #[trigger] self@.providers[i],
                    ) is None,
                res@.map_values(|p: ProviderConfig| p@) =~= want.take(i as int),
            decreases n - i,
        {
            let p = &self.providers[i];
            assert(self@.providers[i as int] == p@);
            let api_key = match &p.api_key {
                Some(k) => Some(resolve_api_key(k.as_str(), env)),
                None => None,
            };
            let resolved = ProviderConfig {
                name: p.name.clone(),
                base_url: trim_end_slashes(p.base_url.as_str()),
                api_key,
            };
            assert(resolved@ == want[i as int]);
            res.push(resolved);
            assert(want.take(i + 1) =~= want.take(i as int).push(want[i as int]));
            assert(res@.map_values(|p: ProviderConfig| p@) =~= want.take(i as int).push(
                want[i as int],
            ));
            i = i + 1;
        }
        assert(want.take(n as int) =~= want);
        res
    }

    /// The remaps whose provider is known, with their filters compiled.
    fn process_remaps(&self, ps: &Vec<ProviderConfig>) -> (res: Vec<ProcessedRemap>)
        requires
            forall|i: int|
                0 <= i < self@.remaps.len() ==> (remap_check(
                    ps@.map_values(|p: ProviderConfig| p@),
                ))(#[trigger] self@.remaps[i]) is None,
        ensures
            res@.map_values(|r: ProcessedRemap| r@) == remaps_view(
                self@.remaps,
                ps@.map_values(|p: ProviderConfig| p@),
            ),
            forall|i: int| 0 <= i < res@.len() ==> (#[trigger] res@[i]).wf(),
    {
        let ghost pv = ps@.map_values(|p: ProviderConfig| p@);
        let mut res: Vec<ProcessedRemap> = Vec::new();
        match &self.remaps {
            None => {
                assert(res@.map_values(|r: ProcessedRemap| r@) =~= remaps_view(self@.remaps, pv));
                res
            },
            Some(rs) => {
                let ghost rv = self@.remaps;
                assert(rv == rs@.map_values(|r: RemapConfig| r@));
                let n = rs.len();
                let mut i: usize = 0;
                assert(rv.take(0) =~= Seq::<RemapConfigView>::empty());
                while i < n
                    invariant
                        n == rs@.len(),
                        i <= n,
                        rv == rs@.map_values(|r: RemapConfig| r@),
                        pv == ps@.map_values(|p: ProviderConfig| p@),
                        forall|i: int| 0 <= i < rv.len() ==> (remap_check(pv))(#[trigger] rv[i]) is None,
                        res@.map_values(|r: ProcessedRemap| r@) =~= remaps_view(rv.take(i as int), pv),
                        forall|i: int| 0 <= i < res@.len() ==> (#[trigger] res@[i]).wf(),
                    decreases n - i,
                {
                    let m = &rs[i];
                    assert(rv[i as int] == m@);
                    assert(rv.take(i + 1).drop_last() =~= rv.take(i as int));
                    assert(rv.take(i + 1).last() == m@);
                    match find_provider(ps, &m.provider) {
                        Some(j) => {
                            let p = &ps[j];
                            proof {
                                lemma_first_hit_none(m@.filters, filter_check());
                            }
                            let filters = compile_filters(&m.filters);
                            let r = ProcessedRemap {
                                prefix: m.prefix.clone(),
                                provider: p.name.clone(),
                                base_url: p.base_url.clone(),
                                api_key: clone_opt_string(&p.api_key),
                                filters,
                                models: ModelMap::new(),
                            };
                            res.push(r);
                            assert(res@.map_values(|r: ProcessedRemap| r@) =~= remaps_view(
                                rv.take(i as int),
                                pv,
                            ).push(r@));
                        },
                        None => {},
                    }
                    i = i + 1;
                }
                assert(rv.take(n as int) =~= rv);
                res
            },
        }
    }

    /// The table of accepted client tokens.
    fn collect_tokens(&self, env: &Vec<(String, String)>) -> (res: TokenMap)
        requires
            forall|i: int|
                0 <= i < self@.require_auth.len() ==> (token_check(env@))(
                    #[trigger] self@.require_auth[i],
                ) is None,
        ensures
            res.wf(),
            res@ == tokens_view(self@.require_auth, env@),
    {
        let mut res = TokenMap::new();
        match &self.require_auth {
            None => res,
            Some(ts) => {
                let ghost tv = self@.require_auth;
                assert(tv == ts@.map_values(|a: AuthToken| a@));
                let n = ts.len();
                let mut i: usize = 0;
                assert(tv.take(0) =~= Seq::<AuthTokenView>::empty());
                while i < n
                    invariant
                        n == ts@.len(),
                        i <= n,
                        tv == ts@.map_values(|a: AuthToken| a@),
                        forall|i: int| 0 <= i < tv.len() ==> (token_check(env@))(#[trigger] tv[i]) is None,
                        res.wf(),
                        res@ == tokens_view(tv.take(i as int), env@),
                    decreases n - i,
                {
                    let a = &ts[i];
                    assert(tv[i as int] == a@);
                    assert(tv.take(i + 1).drop_last() =~= tv.take(i as int));
                    assert(tv.take(i + 1).last() == a@);
                    let token = resolve_api_key(a.token.as_str(), env);
                    res.insert(token, a.id.clone());
                    i = i + 1;
                }
                assert(tv.take(n as int) =~= tv);
                res
            },
        }
    }

    /// The virtual models whose provider is known.
    fn collect_models(&self, ps: &Vec<ProviderConfig>) -> (res: ModelMap)
        ensures
            res.wf(),
            res@ == config_models_view(self@.models, ps@.map_values(|p: ProviderConfig| p@)),
    {
        let ghost pv = ps@.map_values(|p: ProviderConfig| p@);
        let ghost mv = self@.models;
        let mut res = ModelMap::new();
        let n = self.models.len();
        let mut i: usize = 0;
        assert(mv.take(0) =~= Seq::<ModelConfigView>::empty());
        while i < n
            invariant
                n == self.models@.len(),
                i <= n,
                mv == self@.models,
                pv == ps@.map_values(|p: ProviderConfig| p@),
                res.wf(),
                res@ == config_models_view(mv.take(i as int), pv),
            decreases n - i,
        {
            let m = &self.models[i];
            assert(mv[i as int] == m@);
            assert(mv.take(i + 1).drop_last() =~= mv.take(i as int));
            assert(mv.take(i + 1).last() == m@);
            match find_provider(ps, &m.provider) {
                Some(j) => {
                    let p = &ps[j];
                    let target = ModelTarget::new(
                        p.base_url.clone(),
                        clone_opt_string(&p.api_key),
                        m.model.clone(),
                    );
                    res.insert(m.name.as_str(), target);
                },
                None => {},
            }
            i = i + 1;
        }
        assert(mv.take(n as int) =~= mv);
        res
    }

    /// Turns the configuration into routing tables: provider URLs lose
    /// their trailing slashes and `env:` keys are resolved from `env`; a
    /// later provider, model or token with the same name replaces an
    /// earlier one; remaps and models that name an unknown provider are
    /// dropped; the models offered to clients are the configured ones.
    pub fn process_config(self, env: &Vec<(String, String)>) -> (res: ProcessedConfig)
        requires
            config_problem(self@, env@) is None,
        ensures
            res.wf(),
            res@ == processed_view(self@, env@),
    {
        proof {
            lemma_first_hit_none(self@.providers, provider_check(env@));
        }
        let providers = self.resolve_providers(env);
        let ghost pv = providers@.map_values(|p: ProviderConfig| p@);
        proof {
            lemma_first_hit_none(self@.remaps, remap_check(pv));
            lemma_first_hit_none(self@.require_auth, token_check(env@));
        }
        let remaps = self.process_remaps(&providers);
        let auth_tokens = self.collect_tokens(env);
        let config_models = self.collect_models(&providers);
        let all_models = self.collect_models(&providers);
        let res = ProcessedConfig { remaps, auth_tokens, config_models, all_models };
        assert(res@ == processed_view(self@, env@));
        res
    }
}

// ---------------------------------------------------------------------------
// Checking a configuration before processing it
// ---------------------------------------------------------------------------

/// Why a configuration cannot be processed.
#[derive(Debug)]
pub enum ConfigError {
    /// An `env:` key names a variable that is not set.
    MissingEnvVar(String),
    /// A remap filter that the regex crate refuses.
    BadFilter(String),
}

impl View for ConfigError {
    type V = ConfigProblem;

    open spec fn view(&self) -> ConfigProblem {
        match self {
            ConfigError::MissingEnvVar(n) => ConfigProblem::MissingEnvVar(n@),
            ConfigError::BadFilter(p) => ConfigProblem::BadFilter(p@),
        }
    }
}

pub open spec fn opt_problem(o: Option<ConfigError>) -> Option<ConfigProblem> {
    match o {
        Some(e) => Some(e@),
        None => None,
    }
}

/// `prefix`, then `middle`, then `suffix`.
fn concat3(prefix: &str, middle: &str, suffix: &str) -> (res: String)
    ensures
        res@ == prefix@ + middle@ + suffix@,
{
    let mut res = String::from_str(prefix);
    res.append(middle);
    res.append(suffix);
    res
}

impl ConfigError {
    /// A human-readable description.
    pub fn message(&self) -> (res: String)
        ensures
            res@ == (match self@ {
                ConfigProblem::MissingEnvVar(n) => "Environment variable '"@ + n + "' not found"@,
                ConfigProblem::BadFilter(p) => "bad regex: '"@ + p + "'"@,
            }),
    {
        match self {
            ConfigError::MissingEnvVar(n) => concat3(
                "Environment variable '",
                n.as_str(),
                "' not found",
            ),
            ConfigError::BadFilter(p) => concat3("bad regex: '", p.as_str(), "'"),
        }
    }
}

/// The first pattern of the list that does not compile.
fn check_filters(filters: &Option<Vec<String>>) -> (res: Option<ConfigError>)
    ensures
        opt_problem(res) == first_hit(patterns_of(*filters), filter_check()),
{
    match filters {
        None => None,
        Some(pats) => {
            let ghost want = patterns_of(*filters);
            let n = pats.len();
            let mut i: usize = 0;
            assert(want.take(0) =~= Seq::<Seq<char>>::empty());
            while i < n
                invariant
                    n == pats@.len(),
                    i <= n,
                    want == pats@.map_values(|s: String| s@),
                    want == patterns_of(*filters),
                    first_hit(want.take(i as int), filter_check()) is None,
                decreases n - i,
            {
                assert(want[i as int] == pats@[i as int]@);
                proof {
                    lemma_first_hit_step(want, filter_check(), i as int);
                }
                match Filter::compile(pats[i].as_str()) {
                    Some(_) => {},
                    None => {
                        proof {
                            lemma_first_hit_prefix(want, filter_check(), i + 1);
                        }
                        return Some(ConfigError::BadFilter(pats[i].clone()));
                    },
                }
                i = i + 1;
            }
            assert(want.take(n as int) =~= want);
            None
        },
    }
}

impl Config {
    /// The first provider whose key does not resolve.
    fn check_providers(&self, env: &Vec<(String, String)>) -> (res: Option<ConfigError>)
        ensures
            opt_problem(res) == first_hit(self@.providers, provider_check(env@)),
    {
        let ghost pv = self@.providers;
        let n = self.providers.len();
        let mut i: usize = 0;
        assert(pv.take(0) =~= Seq::<ProviderView>::empty());
        while i < n
            invariant
                n == self.providers@.len(),
                i <= n,
                pv == self@.providers,
                first_hit(pv.take(i as int), provider_check(env@)) is None,
            decreases n - i,
        {
            let p = &self.providers[i];
            assert(pv[i as int] == p@);
            proof {
                lemma_first_hit_step(pv, provider_check(env@), i as int);
            }
            match &p.api_key {
                Some(k) => {
                    if !key_is_resolvable(k.as_str(), env) {
                        let name = env_var_name(k.as_str());
                        match name {
                            Some(name) => {
                                proof {
                                    lemma_first_hit_prefix(pv, provider_check(env@), i + 1);
                                }
                                return Some(ConfigError::MissingEnvVar(name));
                            },
                            None => {},
                        }
                    }
                },
                None => {},
            }
            i = i + 1;
        }
        assert(pv.take(n as int) =~= pv);
        None
    }

    /// The first kept remap with a filter that does not compile.
    fn check_remaps(&self, ps: &Vec<ProviderConfig>) -> (res: Option<ConfigError>)
        ensures
            opt_problem(res) == first_hit(
                self@.remaps,
                remap_check(ps@.map_values(|p: ProviderConfig| p@)),
            ),
    {
        let ghost pv = ps@.map_values(|p: ProviderConfig| p@);
        match &self.remaps {
            None => None,
            Some(rs) => {
                let ghost rv = self@.remaps;
                let n = rs.len();
                let mut i: usize = 0;
                assert(rv.take(0) =~= Seq::<RemapConfigView>::empty());
                while i < n
                    invariant
                        n == rs@.len(),
                        i <= n,
                        rv == rs@.map_values(|r: RemapConfig| r@),
                        rv == self@.remaps,
                        pv == ps@.map_values(|p: ProviderConfig| p@),
                        first_hit(rv.take(i as int), remap_check(pv)) is None,
                    decreases n - i,
                {
                    let m = &rs[i];
                    assert(rv[i as int] == m@);
                    proof {
                        lemma_first_hit_step(rv, remap_check(pv), i as int);
                    }
                    match find_provider(ps, &m.provider) {
                        Some(_) => {
                            let e = check_filters(&m.filters);
                            if e.is_some() {
                                proof {
                                    lemma_first_hit_prefix(rv, remap_check(pv), i + 1);
                                }
                                return e;
                            }
                        },
                        None => {},
                    }
                    i = i + 1;
                }
                assert(rv.take(n as int) =~= rv);
                None
            },
        }
    }

    /// The first client token whose key does not resolve.
    fn check_tokens(&self, env: &Vec<(String, String)>) -> (res: Option<ConfigError>)
        ensures
            opt_problem(res) == first_hit(self@.require_auth, token_check(env@)),
    {
        match &self.require_auth {
            None => None,
            Some(ts) => {
                let ghost tv = self@.require_auth;
                let n = ts.len();
                let mut i: usize = 0;
                assert(tv.take(0) =~= Seq::<AuthTokenView>::empty());
                while i < n
                    invariant
                        n == ts@.len(),
                        i <= n,
                        tv == ts@.map_values(|a: AuthToken| a@),
                        tv == self@.require_auth,
                        first_hit(tv.take(i as int), token_check(env@)) is None,
                    decreases n - i,
                {
                    let a = &ts[i];
                    assert(tv[i as int] == a@);
                    proof {
                        lemma_first_hit_step(tv, token_check(env@), i as int);
                    }
                    if !key_is_resolvable(a.token.as_str(), env) {
                        match env_var_name(a.token.as_str()) {
                            Some(name) => {
                                proof {
                                    lemma_first_hit_prefix(tv, token_check(env@), i + 1);
                                }
                                return Some(ConfigError::MissingEnvVar(name));
                            },
                            None => {},
                        }
                    }
                    i = i + 1;
                }
                assert(tv.take(n as int) =~= tv);
                None
            },
        }
    }

    /// The first problem that processing would meet in `env`, in the order
    /// in which processing meets them.
    pub fn find_problem(&self, env: &Vec<(String, String)>) -> (res: Option<ConfigError>)
        ensures
            opt_problem(res) == config_problem(self@, env@),
    {
        let e = self.check_providers(env);
        if e.is_some() {
            return e;
        }
        proof {
            lemma_first_hit_none(self@.providers, provider_check(env@));
        }
        let providers = self.resolve_providers(env);
        let e = self.check_remaps(&providers);
        if e.is_some() {
            return e;
        }
        self.check_tokens(env)
    }

    /// Processes the configuration when nothing stands in the way, else
    /// reports the first problem (see [`Config::find_problem`]).
    pub fn try_process_config(self, env: &Vec<(String, String)>) -> (res: Result<
        ProcessedConfig,
        ConfigError,
    >)
        ensures
            match res {
                Ok(p) => config_problem(self@, env@) is None && p.wf() && p@ == processed_view(
                    self@,
                    env@,
                ),
                Err(e) => config_problem(self@, env@) == Some(e@),
            },
    {
        match self.find_problem(env) {
            Some(e) => Err(e),
            None => Ok(self.process_config(env)),
        }
    }
}

// ---------------------------------------------------------------------------
// Serving: model listing, routing and client authorization
// ---------------------------------------------------------------------------

/// Whether a client presenting `token` (or none) is let in: always when no
/// token is configured, else only with one of the configured tokens.
pub open spec fn auth_allows(tokens: Map<Seq<char>, Seq<char>>, token: Option<Seq<char>>) -> bool {
    tokens.dom() == Set::<Seq<char>>::empty() || (token matches Some(t) && tokens.contains_key(t))
}

/// The models offered by the remaps, merged in remap order.
pub open spec fn merged_remap_models(rs: Seq<RemapView>) -> ModelMapView
    decreases rs.len(),
{
    if rs.len() == 0 {
        ModelMapView::empty()
    } else {
        put_all(merged_remap_models(rs.drop_last()), rs.last().models.entries())
    }
}

/// All offered models: first those of the remaps, in order, then the
/// configured ones, which win over a remap model of the same name.
pub open spec fn all_models_of(rs: Seq<RemapView>, config_models: ModelMapView) -> ModelMapView {
    put_all(merged_remap_models(rs), config_models.entries())
}

/// Inserts every entry of `src`, in its order, into `dst`.
fn insert_all(dst: &mut ModelMap, src: &ModelMap)
    requires
        old(dst).wf(),
        src.wf(),
    ensures
        final(dst).wf(),
        final(dst)@ == put_all(old(dst)@, src@.entries()),
{
    let names = src.models();
    let ghost want = src@.entries();
    let ghost start = dst@;
    let n = names.len();
    let mut j: usize = 0;
    proof {
        src.lemma_view_wf();
        assert(want.take(0) =~= Seq::<(Seq<char>, ModelTargetView)>::empty());
    }
    while j < n
        invariant
            n == names@.len(),
            names@.map_values(|s: String| s@) == src@.names,
            src.wf(),
            src@.wf(),
            want == src@.entries(),
            j <= n,
            dst.wf(),
            dst@ == put_all(start, want.take(j as int)),
        decreases n - j,
    {
        let name = &names[j];
        assert(src@.names[j as int] == name@);
        assert(src@.targets.contains_key(name@));
        match src.get(name.as_str()) {
            Some(t) => {
                assert(want.take(j + 1).drop_last() =~= want.take(j as int));
                assert(want.take(j + 1).last() == want[j as int]);
                assert(want[j as int] == (name@, t@));
                dst.insert(name.as_str(), t);
            },
            None => {
                return vstd::pervasive::unreached();
            },
        }
        j = j + 1;
    }
    assert(want.take(n as int) =~= want);
}

impl ProcessedConfig {
    /// The names of the models offered to clients, in order.
    pub fn get_models(&self) -> (res: Vec<String>)
        ensures
            res@.map_values(|s: String| s@) == self@.all_models.names,
    {
        self.all_models.models()
    }

    /// Where requests for `model` go, if it is offered.
    pub fn get_target(&self, model: &str) -> (res: Option<ModelTarget>)
        requires
            self.wf(),
        ensures
            match res {
                Some(t) => self@.all_models.get(model@) == Some(t@),
                None => self@.all_models.get(model@) is None,
            },
    {
        self.all_models.get(model)
    }

    /// Whether a client presenting `token` is authorized.
    pub fn auth_check(&self, token: Option<&str>) -> (res: bool)
        ensures
            res == auth_allows(
                self@.auth_tokens,
                match token {
                    Some(t) => Some(t@),
                    None => None,
                },
            ),
    {
        if self.auth_tokens.is_empty() {
            true
        } else {
            match token {
                Some(t) => self.auth_tokens.contains(t),
                None => false,
            }
        }
    }

    /// The identifier under which `token` is accepted, if it is.
    pub fn token_id(&self, token: &str) -> (res: Option<String>)
        requires
            self.wf(),
        ensures
            match res {
                Some(id) => self@.auth_tokens.contains_key(token@) && self@.auth_tokens[token@] == id@,
                None => !self@.auth_tokens.contains_key(token@),
            },
    {
        self.auth_tokens.id_of(token)
    }

    /// The number of remaps whose provider is known.
    pub fn remap_count(&self) -> (res: usize)
        ensures
            res == self@.remaps.len(),
    {
        self.remaps.len()
    }

    /// Replaces the models of remap `i` by those of a provider listing, as
    /// [`ProcessedRemap::populate`] does; everything else stays.
    pub fn populate_remap(&mut self, i: usize, source: &ModelsResponse) -> (res: Result<
        (),
        PopulateError,
    >)
        requires
            old(self).wf(),
            i < old(self)@.remaps.len(),
        ensures
            final(self).wf(),
            res is Ok <==> (source@ matches Some(ls) && all_ids_present(ls)),
            res == Err::<(), PopulateError>(PopulateError::MissingDataArray) <==> source@ is None,
            res is Ok ==> final(self)@ == (ProcessedView {
                remaps: old(self)@.remaps.update(
                    i as int,
                    RemapView {
                        models: remap_models_view(old(self)@.remaps[i as int], source@.unwrap()),
                        ..old(self)@.remaps[i as int]
                    },
                ),
                ..old(self)@
            }),
            res is Err ==> final(self)@ == old(self)@,
    {
        let ghost old_remaps = self.remaps@;
        assert(self.remaps@[i as int].wf());
        let mut remap = self.remaps.remove(i);
        let res = remap.populate(source);
        self.remaps.insert(i, remap);
        proof {
            assert forall|j: int| 0 <= j < self.remaps@.len() implies (#[trigger] self.remaps@[j]).wf() by {
                if j != i {
                    assert(self.remaps@[j] == old_remaps[j]);
                }
            }
            if res is Ok {
                assert(self@.remaps =~= old(self)@.remaps.update(
                    i as int,
                    RemapView {
                        models: remap_models_view(old(self)@.remaps[i as int], source@.unwrap()),
                        ..old(self)@.remaps[i as int]
                    },
                ));
            } else {
                assert(self@.remaps =~= old(self)@.remaps);
            }
        }
        res
    }

    /// The prefix of remap `i`.
    pub fn remap_prefix(&self, i: usize) -> (res: String)
        requires
            i < self@.remaps.len(),
        ensures
            res@ == self@.remaps[i as int].prefix,
    {
        self.remaps[i].prefix()
    }

    /// Whether `model` passes the filters of remap `i`.
    pub fn remap_selects(&self, i: usize, model: &str) -> (res: bool)
        requires
            i < self@.remaps.len(),
        ensures
            res == model_selected(self@.remaps[i as int].filters, model@),
    {
        self.remaps[i].is_model_selected(model)
    }

    /// Rebuilds the offered models from the remaps' current models and the
    /// configured ones (see [`all_models_of`]).
    pub fn update_models(&mut self)
        requires
            old(self).wf(),
        ensures
            final(self).wf(),
            final(self)@ == (ProcessedView {
                all_models: all_models_of(old(self)@.remaps, old(self)@.config_models),
                ..old(self)@
            }),
    {
        let mut all = ModelMap::new();
        let n = self.remaps.len();
        let ghost rv = self@.remaps;
        let mut i: usize = 0;
        assert(rv.take(0) =~= Seq::<RemapView>::empty());
        while i < n
            invariant
                n == self.remaps@.len(),
                i <= n,
                self.wf(),
                rv == self@.remaps,
                all.wf(),
                all@ == merged_remap_models(rv.take(i as int)),
            decreases n - i,
        {
            let r = &self.remaps[i];
            assert(self.remaps@[i as int].wf());
            assert(rv[i as int] == r@);
            assert(rv.take(i + 1).drop_last() =~= rv.take(i as int));
            assert(rv.take(i + 1).last() == r@);
            insert_all(&mut all, &r.models);
            i = i + 1;
        }
        assert(rv.take(n as int) =~= rv);
        insert_all(&mut all, &self.config_models);
        self.all_models = all;
    }
}

// ---------------------------------------------------------------------------
// Remaps: which provider models are offered
// ---------------------------------------------------------------------------

/// One entry of a provider's model listing: its `id`, when it has one
/// that is a string.
pub struct ModelListing {
    pub id: Option<String>,
}

/// A provider's model listing: the `data` array, when there is one.
pub struct ModelsResponse {
    pub data: Option<Vec<ModelListing>>,
}

impl View for ModelListing {
    type V = Option<Seq<char>>;

    open spec fn view(&self) -> Option<Seq<char>> {
        opt_str(self.id)
    }
}

impl View for ModelsResponse {
    type V = Option<Seq<Option<Seq<char>>>>;

    open spec fn view(&self) -> Option<Seq<Option<Seq<char>>>> {
        match self.data {
            Some(v) => Some(v@.map_values(|l: ModelListing| l@)),
            None => None,
        }
    }
}

/// Why a model listing could not be used.
#[derive(Debug, PartialEq, Eq, Structural)]
pub enum PopulateError {
    MissingDataArray,
    MissingModelId,
}

impl PopulateError {
    /// A human-readable description.
    pub fn message(&self) -> (res: String)
        ensures
            res@ == (match self {
                PopulateError::MissingDataArray => "missing data array"@,
                PopulateError::MissingModelId => "missing model id"@,
            }),
    {
        match self {
            PopulateError::MissingDataArray => String::from_str("missing data array"),
            PopulateError::MissingModelId => String::from_str("missing model id"),
        }
    }
}

/// A model passes the filters when there are none or one of them matches it.
pub open spec fn model_selected(filters: Seq<Seq<char>>, model: Seq<char>) -> bool {
    filters.len() == 0 || exists|i: int| 0 <= i < filters.len() && regex_is_match(filters[i], model)
}

/// The models a remap offers for a listing: each selected id, in order,
/// as the prefix followed by the id, routed to the remap's provider.
pub open spec fn remap_models_view(r: RemapView, listings: Seq<Option<Seq<char>>>) -> ModelMapView
    decreases listings.len(),
{
    if listings.len() == 0 {
        ModelMapView::empty()
    } else {
        let prev = remap_models_view(r, listings.drop_last());
        match listings.last() {
            Some(id) => if model_selected(r.filters, id) {
                prev.put(
                    r.prefix + id,
                    ModelTargetView { base_url: r.base_url, api_key: r.api_key, model: id },
                )
            } else {
                prev
            },
            None => prev,
        }
    }
}

pub open spec fn all_ids_present(listings: Seq<Option<Seq<char>>>) -> bool {
    forall|i: int| 0 <= i < listings.len() ==> (#[trigger] listings[i]) is Some
}

impl ProcessedRemap {
    /// Whether `model` passes this remap's filters.
    pub fn is_model_selected(&self, model: &str) -> (res: bool)
        ensures
            res == model_selected(self@.filters, model@),
    {
        let n = self.filters.len();
        if n == 0 {
            return true;
        }
        let ghost fv = self@.filters;
        let mut i: usize = 0;
        while i < n
            invariant
                n == self.filters@.len(),
                fv == self@.filters,
                i <= n,
                forall|j: int| 0 <= j < i ==> !regex_is_match(#[trigger] fv[j], model@),
            decreases n - i,
        {
            assert(fv[i as int] == self.filters@[i as int]@);
            if self.filters[i].is_match(model) {
                return true;
            }
            i = i + 1;
        }
        false
    }

    /// Replaces this remap's models by those of a provider listing (see
    /// [`remap_models_view`]). The listing must have a `data` array whose
    /// every entry has an `id`; otherwise nothing changes.
    pub fn populate(&mut self, source: &ModelsResponse) -> (res: Result<(), PopulateError>)
        requires
            old(self).wf(),
        ensures
            final(self).wf(),
            res is Ok <==> (source@ matches Some(ls) && all_ids_present(ls)),
            res == Err::<(), PopulateError>(PopulateError::MissingDataArray) <==> source@ is None,
            res is Ok ==> final(self)@ == (RemapView {
                models: remap_models_view(old(self)@, source@.unwrap()),
                ..old(self)@
            }),
            res is Err ==> final(self)@ == old(self)@,
    {
        let data = match &source.data {
            Some(d) => d,
            None => {
                return Err(PopulateError::MissingDataArray);
            },
        };
        let ghost ls = source@.unwrap();
        let ghost me = self@;
        let mut new_models = ModelMap::new();
        let n = data.len();
        let mut i: usize = 0;
        assert(ls.take(0) =~= Seq::<Option<Seq<char>>>::empty());
        while i < n
            invariant
                n == data@.len(),
                ls == data@.map_values(|l: ModelListing| l@),
                me == self@,
                self.wf(),
                source@ == Some(ls),
                i <= n,
                all_ids_present(ls.take(i as int)),
                new_models.wf(),
                new_models@ == remap_models_view(me, ls.take(i as int)),
            decreases n - i,
        {
            let entry = &data[i];
            assert(ls[i as int] == entry@);
            assert(ls.take(i + 1).drop_last() =~= ls.take(i as int));
            assert(ls.take(i + 1).last() == entry@);
            match &entry.id {
                None => {
                    assert(ls[i as int] is None);
                    assert(!all_ids_present(ls));
                    return Err(PopulateError::MissingModelId);
                },
                Some(model) => {
                    if self.is_model_selected(model.as_str()) {
                        let mut remapped_name = String::from_str(self.prefix.as_str());
                        remapped_name.append(model.as_str());
                        let target = ModelTarget::new(
                            self.base_url.clone(),
                            clone_opt_string(&self.api_key),
                            model.clone(),
                        );
                        new_models.insert(remapped_name.as_str(), target);
                    }
                },
            }
            assert forall|j: int| 0 <= j < i + 1 implies (#[trigger] ls.take(i + 1)[j]) is Some by {
                if j < i {
                    assert(ls.take(i + 1)[j] == ls.take(i as int)[j]);
                }
            }
            i = i + 1;
        }
        assert(ls.take(n as int) =~= ls);
        self.models = new_models;
        Ok(())
    }
}

} // verus!
