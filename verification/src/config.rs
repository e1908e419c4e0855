//! What the configuration decides: where the agent keeps its data, what its
//! environment holds, and what of a submitted configuration is stored.

use vstd::prelude::*;
use vstd::string::*;

use crate::state::{is_default_config, AppConfig, ModelConfig};
use crate::string_map::StringMap;
use crate::text::opt_text;

verus! {

/// The environment before the user's own variables are added.
pub open spec fn base_env(
    home: Seq<char>,
    key: Option<Seq<char>>,
    base_url: Seq<char>,
) -> Map<Seq<char>, Seq<char>> {
    let fixed = Map::<Seq<char>, Seq<char>>::empty().insert("DSH_HOME"@, home).insert(
        "DSH_TELEMETRY_DISABLED"@,
        "1"@,
    );
    let keyed = match key {
        Some(k) => if k.len() > 0 {
            fixed.insert("DEEPSEEK_API_KEY"@, k)
        } else {
            fixed
        },
        None => fixed,
    };
    if base_url.len() > 0 {
        keyed.insert("DEEPSEEK_BASE_URL"@, base_url)
    } else {
        keyed
    }
}

/// The environment of the agent's process. The secret key is handed over here
/// and nowhere else; the user's own variables win over the others.
pub fn build_env(cfg: &AppConfig, home: &str, api_key: Option<String>) -> (r: StringMap)
    requires
        cfg.advanced.extra_env.wf(),
    ensures
        r.wf(),
        r@ == base_env(
            home@,
            opt_text(api_key),
            cfg.model.base_url@,
        ).union_prefer_right(cfg.advanced.extra_env@),
{
    let mut env = StringMap::new();
    env.insert("DSH_HOME".to_owned(), home.to_owned());
    env.insert("DSH_TELEMETRY_DISABLED".to_owned(), "1".to_owned());
    if let Some(k) = &api_key {
        if !k.as_str().is_empty() {
            env.insert("DEEPSEEK_API_KEY".to_owned(), k.clone());
        }
    }
    if !cfg.model.base_url.as_str().is_empty() {
        env.insert("DEEPSEEK_BASE_URL".to_owned(), cfg.model.base_url.clone());
    }
    let ghost base = env@;
    let extra = &cfg.advanced.extra_env;
    let n: usize = extra.len();
    for i in 0..n
        invariant
            n == extra.spec_len(),
            extra.wf(),
            env.wf(),
            extra == cfg.advanced.extra_env,
            forall|k: Seq<char>| #[trigger]
                env@.dom().contains(k) <==> base.dom().contains(k) || exists|j: int|
                    0 <= j < i && #[trigger] extra.key(j) == k,
            forall|k: Seq<char>| #[trigger]
                env@.dom().contains(k) ==> env@[k] == (if exists|j: int|
                    0 <= j < i && #[trigger] extra.key(j) == k {
                    extra@[k]
                } else {
                    base[k]
                }),
    {
        let (k, v) = extra.entry(i);
        let ghost prev = env@;
        env.insert(k.clone(), v.clone());
        proof {
            assert forall|x: Seq<char>| #[trigger]
                env@.dom().contains(x) <==> base.dom().contains(x) || exists|j: int|
                    0 <= j < i + 1 && #[trigger] extra.key(j) == x by {
                if x == k@ {
                    assert(extra.key(i as int) == x);
                } else {
                    assert(prev.dom().contains(x) == env@.dom().contains(x));
                }
            }
            assert forall|x: Seq<char>| #[trigger] env@.dom().contains(x) implies env@[x] == (
            if exists|j: int| 0 <= j < i + 1 && #[trigger] extra.key(j) == x {
                extra@[x]
            } else {
                base[x]
            }) by {
                if x == k@ {
                    assert(extra.key(i as int) == x);
                } else {
                    assert(prev.dom().contains(x));
                }
            }
        }
    }
    proof {
        extra.lemma_keys_listed();
        assert(env@ =~= base.union_prefer_right(extra@));
    }
    env
}

/// The configuration to work with: the stored one if it could be read, else that
/// of a first start.
pub fn load_config(stored: Option<AppConfig>) -> (r: AppConfig)
    ensures
        match stored {
            Some(c) => r == c,
            None => is_default_config(r),
        },
{
    match stored {
        Some(c) => c,
        None => AppConfig::default(),
    }
}

/// Where the agent keeps its data: the directory that is configured; none stands
/// for the application's own.
pub fn resolve_dsh_home(cfg: &AppConfig) -> (r: Option<String>)
    ensures
        opt_text(r) == if cfg.paths.data_dir@.len() > 0 {
            Some(cfg.paths.data_dir@)
        } else {
            None
        },
{
    if cfg.paths.data_dir.as_str().is_empty() {
        None
    } else {
        Some(cfg.paths.data_dir.clone())
    }
}

/// The key to put into the system's key store; an empty one leaves the store as
/// it is.
pub fn key_to_store(key: &str) -> (r: Option<String>)
    ensures
        opt_text(r) == if key@.len() > 0 {
            Some(key@)
        } else {
            None
        },
{
    if key.is_empty() {
        None
    } else {
        Some(key.to_owned())
    }
}

/// The key that the system's key store gave, if it is one.
pub fn usable_key(stored: Option<String>) -> (r: Option<String>)
    ensures
        opt_text(r) == match opt_text(stored) {
            Some(k) => if k.len() > 0 {
                Some(k)
            } else {
                None
            },
            None => None,
        },
{
    match stored {
        Some(k) => if k.as_str().is_empty() {
            None
        } else {
            Some(k)
        },
        None => None,
    }
}

/// Splits a submitted configuration into the key, which goes to the system's key
/// store if there is one, and the rest, which is stored without it.
pub fn split_config(submitted: AppConfig) -> (r: (Option<String>, AppConfig))
    ensures
        opt_text(r.0) == if submitted.model.api_key@.len() > 0 {
            Some(submitted.model.api_key@)
        } else {
            None
        },
        r.1.model.api_key@ == Seq::<char>::empty(),
        r.1 == (AppConfig {
            model: ModelConfig { api_key: r.1.model.api_key, ..submitted.model },
            ..submitted
        }),
{
    let key = key_to_store(submitted.model.api_key.as_str());
    let mut rest = submitted;
    rest.model.api_key = String::new();
    (key, rest)
}

// ---------------------------------------------------------------------------
// Laws
// ---------------------------------------------------------------------------

/// The agent always finds its data directory and sends no telemetry, unless the
/// user's own variables say otherwise; a key that is empty is never handed over.
pub proof fn law_the_environment_is_complete(
    home: Seq<char>,
    key: Option<Seq<char>>,
    base_url: Seq<char>,
    extra: Map<Seq<char>, Seq<char>>,
    name: Seq<char>,
)
    ensures
        ({
            let env = base_env(home, key, base_url).union_prefer_right(extra);
            &&& env.dom().contains("DSH_HOME"@)
            &&& env.dom().contains("DSH_TELEMETRY_DISABLED"@)
            &&& !extra.dom().contains("DSH_HOME"@) ==> env["DSH_HOME"@] == home
            &&& !extra.dom().contains("DSH_TELEMETRY_DISABLED"@)
                ==> env["DSH_TELEMETRY_DISABLED"@] == "1"@
            &&& !extra.dom().contains("DEEPSEEK_API_KEY"@) ==> (env.dom().contains(
                "DEEPSEEK_API_KEY"@,
            ) <==> key is Some && key->0.len() > 0)
            &&& extra.dom().contains(name) ==> env.dom().contains(name) && env[name]
                == extra[name]
        }),
{
    reveal_strlit("DSH_HOME");
    reveal_strlit("DSH_TELEMETRY_DISABLED");
    reveal_strlit("DEEPSEEK_API_KEY");
    reveal_strlit("DEEPSEEK_BASE_URL");
    assert("DSH_HOME"@.len() == 8 && "DSH_TELEMETRY_DISABLED"@.len() == 22);
    assert("DEEPSEEK_API_KEY"@.len() == 16 && "DEEPSEEK_BASE_URL"@.len() == 17);
}

/// The environment hands over the home, the key and the address as they are, each
/// under its name, and no other variable but the user's own, which win.
pub proof fn law_what_the_environment_hands_over(
    home: Seq<char>,
    key: Option<Seq<char>>,
    base_url: Seq<char>,
    extra: Map<Seq<char>, Seq<char>>,
    name: Seq<char>,
)
    requires
        !extra.dom().contains(name),
    ensures
        ({
            let env = base_env(home, key, base_url).union_prefer_right(extra);
            &&& name == "DSH_HOME"@ ==> env.dom().contains(name) && env[name] == home
            &&& name == "DSH_TELEMETRY_DISABLED"@ ==> env.dom().contains(name) && env[name]
                == "1"@
            &&& name == "DEEPSEEK_API_KEY"@ && (key matches Some(k) && k.len() > 0)
                ==> env.dom().contains(name) && env[name] == key->0
            &&& name == "DEEPSEEK_BASE_URL"@ && base_url.len() > 0 ==> env.dom().contains(name)
                && env[name] == base_url
            &&& env.dom().contains(name) ==> name == "DSH_HOME"@ || name
                == "DSH_TELEMETRY_DISABLED"@ || name == "DEEPSEEK_API_KEY"@ && key is Some
                && key->0.len() > 0 || name == "DEEPSEEK_BASE_URL"@ && base_url.len() > 0
        }),
{
    reveal_strlit("DSH_HOME");
    reveal_strlit("DSH_TELEMETRY_DISABLED");
    reveal_strlit("DEEPSEEK_API_KEY");
    reveal_strlit("DEEPSEEK_BASE_URL");
    assert("DSH_HOME"@.len() == 8 && "DSH_TELEMETRY_DISABLED"@.len() == 22);
    assert("DEEPSEEK_API_KEY"@.len() == 16 && "DEEPSEEK_BASE_URL"@.len() == 17);
}

} // verus!
