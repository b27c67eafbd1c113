//! Platform system — capability grants and startup contract validation.
//!
//! Platforms define the runtime environment for Spore programs.
//! They grant capabilities and define the startup contract for the selected
//! entry module.

use vstd::prelude::*;
use crate::effect_set::EffectSet;
use crate::name_map::NameMap;
use crate::names::{views, sorted};
use crate::text::{decimal, push_decimal, str_eq, string_of};
use crate::module::ModuleInterface;
use crate::names::{join_with, join_strings};
use crate::types::{Ty, ty_text};

verus! {

/// Platform-specific configuration.
#[derive(Debug, Clone, Copy, PartialEq, Eq)]
pub struct PlatformConfig {
    /// Maximum concurrency level (None = unlimited).
    pub max_concurrency: Option<u32>,
    /// Whether the platform supports async.
    pub async_support: bool,
    /// Runtime memory limit in bytes (None = unlimited).
    pub memory_limit: Option<u64>,
}

impl Default for PlatformConfig {
    fn default() -> (r: Self)
        ensures
            r == (PlatformConfig { max_concurrency: None, async_support: false, memory_limit: None }),
    {
        PlatformConfig { max_concurrency: None, async_support: false, memory_limit: None }
    }
}

/// A platform definition.
#[derive(Debug)]
pub struct Platform {
    /// Platform name (e.g., "cli", "web", "embedded").
    pub name: String,
    /// Capabilities this platform provides.
    pub capabilities: EffectSet,
    /// Required startup function name inside the selected entry module.
    pub startup_function: String,
    /// Expected parameter types for the startup function.
    pub startup_params: Vec<String>,
    /// Expected return type of the startup function.
    pub startup_return: String,
    /// Platform-specific configuration.
    pub config: PlatformConfig,
}

/// Startup contract shared by the built-in platforms: `main()` returning `()`.
pub open spec fn main_returning_unit(p: Platform) -> bool {
    &&& p.startup_function@ == "main"@
    &&& p.startup_params@.len() == 0
    &&& p.startup_return@ == "()"@
}

/// The built-in CLI platform: every built-in effect, unlimited concurrency,
/// async, no memory limit.
pub open spec fn is_cli(p: Platform) -> bool {
    &&& p.name@ == "cli"@
    &&& p.capabilities@ == set![
        "Console"@, "FileRead"@, "FileWrite"@, "NetConnect"@, "NetListen"@, "Env"@, "Spawn"@,
        "Clock"@, "Random"@, "Exit"@,
    ]
    &&& main_returning_unit(p)
    &&& p.config == PlatformConfig { max_concurrency: None, async_support: true, memory_limit: None }
}

/// The built-in web platform: console, network connect, randomness and clock;
/// one lane; async; no memory limit.
pub open spec fn is_web(p: Platform) -> bool {
    &&& p.name@ == "web"@
    &&& p.capabilities@ == set!["Console"@, "NetConnect"@, "Random"@, "Clock"@]
    &&& main_returning_unit(p)
    &&& p.config == PlatformConfig { max_concurrency: Some(1), async_support: true, memory_limit: None }
}

/// The built-in embedded platform: no capabilities, one lane, no async,
/// 64 KiB of memory.
pub open spec fn is_embedded(p: Platform) -> bool {
    &&& p.name@ == "embedded"@
    &&& p.capabilities@ == Set::<Seq<char>>::empty()
    &&& main_returning_unit(p)
    &&& p.config == PlatformConfig {
        max_concurrency: Some(1),
        async_support: false,
        memory_limit: Some(65536),
    }
}

/// Platform-related warnings.
#[derive(Debug)]
pub struct PlatformWarning {
    pub kind: PlatformWarningKind,
    pub message: String,
}

#[derive(Debug, Clone, Copy, PartialEq, Eq)]
pub enum PlatformWarningKind {
    MissingStartupFunction,
    WrongStartupSignature,
    UnsupportedCapability,
}

#[derive(Debug, PartialEq, Eq)]
pub struct PlatformStartupError {
    pub kind: PlatformStartupErrorKind,
    pub message: String,
}

#[derive(Debug, Clone, Copy, PartialEq, Eq)]
pub enum PlatformStartupErrorKind {
    MissingStartupFunction,
    WrongStartupSignature,
    UnsupportedCapability,
    InvalidPlatformContract,
}

/// A warning by kind and text.
pub open spec fn warning_view(w: PlatformWarning) -> (PlatformWarningKind, Seq<char>) {
    (w.kind, w.message@)
}

/// The warnings for a startup function named `name` taking `count`
/// parameters and returning `ret`: a missing-function warning when the name
/// differs from the expected one, then a signature warning for a wrong
/// parameter count, then one for a wrong return type.
pub open spec fn startup_warnings(
    p: Platform,
    name: Seq<char>,
    count: nat,
    ret: Seq<char>,
) -> Seq<(PlatformWarningKind, Seq<char>)> {
    let w1 = if name != p.startup_function@ {
        seq![(
            PlatformWarningKind::MissingStartupFunction,
            "platform `"@ + p.name@ + "` expects startup function `"@ + p.startup_function@
                + "`, but it was not found"@,
        )]
    } else {
        Seq::empty()
    };
    let w2 = if count != p.startup_params@.len() {
        seq![(
            PlatformWarningKind::WrongStartupSignature,
            "startup function `"@ + p.startup_function@ + "` should take "@ + decimal(
                p.startup_params@.len(),
            ) + " parameters, takes "@ + decimal(count),
        )]
    } else {
        Seq::empty()
    };
    let w3 = if ret != p.startup_return@ {
        seq![(
            PlatformWarningKind::WrongStartupSignature,
            "startup function `"@ + p.startup_function@ + "` should return `"@ + p.startup_return@
                + "`, returns `"@ + ret + "`"@,
        )]
    } else {
        Seq::empty()
    };
    w1 + w2 + w3
}

/// How each type of a list is written.
pub open spec fn ty_texts(ts: Seq<Ty>) -> Seq<Seq<char>> {
    ts.map_values(|t: Ty| ty_text(t))
}

/// What checking an entry module against a platform's startup contract
/// gives: nothing when it holds, else the error's kind and message.
pub open spec fn entry_startup_outcome(p: Platform, m: ModuleInterface) -> Option<(PlatformStartupErrorKind, Seq<char>)> {
    let module_name = m.qualified();
    if !m.functions@.contains_key(p.startup_function@) {
        Some((
            PlatformStartupErrorKind::MissingStartupFunction,
            "entry module `"@ + module_name + "` does not define required startup function `"@
                + p.startup_function@ + "` for platform `"@ + p.name@ + "`"@,
        ))
    } else {
        let sig = m.functions@[p.startup_function@];
        let actual = ty_texts(sig.0@);
        if actual != views(p.startup_params@) {
            Some((
                PlatformStartupErrorKind::WrongStartupSignature,
                "startup function `"@ + p.startup_function@ + "` in entry module `"@ + module_name
                    + "` should take ("@ + join_with(views(p.startup_params@), ", "@) + ") for platform `"@
                    + p.name@ + "`, found ("@ + join_with(actual, ", "@) + ")"@,
            ))
        } else if ty_text(sig.1) != p.startup_return@ {
            Some((
                PlatformStartupErrorKind::WrongStartupSignature,
                "startup function `"@ + p.startup_function@ + "` in entry module `"@ + module_name
                    + "` should return `"@ + p.startup_return@ + "` for platform `"@ + p.name@
                    + "`, found `"@ + ty_text(sig.1) + "`"@,
            ))
        } else {
            None
        }
    }
}

fn main_unit_platform(name: &str, capabilities: EffectSet, config: PlatformConfig) -> (p: Platform)
    ensures
        p.name@ == name@,
        p.capabilities == capabilities,
        main_returning_unit(p),
        p.config == config,
{
    Platform {
        name: string_of(name),
        capabilities,
        startup_function: string_of("main"),
        startup_params: Vec::new(),
        startup_return: string_of("()"),
        config,
    }
}

impl Platform {
    /// Create a CLI platform (most common).
    ///
    /// Grants the built-in intent-oriented effects for full CLI access.
    pub fn cli() -> (p: Self)
        ensures
            is_cli(p),
    {
        let mut capabilities = EffectSet::new();
        // ── Built-in effects ──
        capabilities.insert(string_of("Console"));
        capabilities.insert(string_of("FileRead"));
        capabilities.insert(string_of("FileWrite"));
        capabilities.insert(string_of("NetConnect"));
        capabilities.insert(string_of("NetListen"));
        capabilities.insert(string_of("Env"));
        capabilities.insert(string_of("Spawn"));
        capabilities.insert(string_of("Clock"));
        capabilities.insert(string_of("Random"));
        capabilities.insert(string_of("Exit"));
        let p = main_unit_platform(
            "cli",
            capabilities,
            PlatformConfig { max_concurrency: None, async_support: true, memory_limit: None },
        );
        assert(p.capabilities@ =~= set![
            "Console"@, "FileRead"@, "FileWrite"@, "NetConnect"@, "NetListen"@, "Env"@, "Spawn"@,
            "Clock"@, "Random"@, "Exit"@,
        ]);
        p
    }

    /// Create a web/WASI platform.
    ///
    /// Grants a subset of built-in effects appropriate for sandboxed web
    /// environments.
    pub fn web() -> (p: Self)
        ensures
            is_web(p),
    {
        let mut capabilities = EffectSet::new();
        capabilities.insert(string_of("Console"));
        capabilities.insert(string_of("NetConnect"));
        capabilities.insert(string_of("Random"));
        capabilities.insert(string_of("Clock"));
        let p = main_unit_platform(
            "web",
            capabilities,
            PlatformConfig { max_concurrency: Some(1), async_support: true, memory_limit: None },
        );
        assert(p.capabilities@ =~= set!["Console"@, "NetConnect"@, "Random"@, "Clock"@]);
        p
    }

    /// Create a minimal/embedded platform.
    pub fn embedded() -> (p: Self)
        ensures
            is_embedded(p),
    {
        main_unit_platform(
            "embedded",
            EffectSet::new(),
            PlatformConfig {
                max_concurrency: Some(1),
                async_support: false,
                memory_limit: Some(64 * 1024),
            },
        )
    }

    /// Check if this platform grants a specific capability.
    pub fn grants(&self, capability: &str) -> (b: bool)
        ensures
            b == self.capabilities@.contains(capability@),
    {
        self.capabilities.contains(capability)
    }

    /// Validate that a function's required capabilities are granted by this
    /// platform; on failure, the missing capabilities in increasing order.
    pub fn validate_capabilities(&self, required: &EffectSet) -> (r: Result<(), Vec<String>>)
        ensures
            r is Ok <==> required@.subset_of(self.capabilities@),
            r matches Err(missing) ==> {
                &&& sorted(views(missing@))
                &&& views(missing@).to_set() == required@.difference(self.capabilities@)
            },
    {
        let missing = self.capabilities.missing_from(required);
        if missing.len() == 0 {
            assert(required@.subset_of(self.capabilities@)) by {
                assert forall|x: Seq<char>| required@.contains(x) implies self.capabilities@.contains(x) by {
                    if !self.capabilities@.contains(x) {
                        assert(views(missing@).to_set().contains(x));
                    }
                }
            }
            Ok(())
        } else {
            assert(views(missing@).to_set().contains(views(missing@)[0]));
            Err(missing)
        }
    }

    /// Validate the startup function against the platform startup contract.
    pub fn validate_startup_function(
        &self,
        startup_name: &str,
        param_count: usize,
        return_type: &str,
    ) -> (ws: Vec<PlatformWarning>)
        ensures
            ws@.map_values(|w: PlatformWarning| warning_view(w)) == startup_warnings(
                *self,
                startup_name@,
                param_count as nat,
                return_type@,
            ),
    {
        let mut warnings: Vec<PlatformWarning> = Vec::new();
        let ghost w1: Seq<(PlatformWarningKind, Seq<char>)>;
        if !str_eq(startup_name, self.startup_function.as_str()) {
            let mut message = string_of("platform `");
            message.append(self.name.as_str());
            message.append("` expects startup function `");
            message.append(self.startup_function.as_str());
            message.append("`, but it was not found");
            warnings.push(PlatformWarning { kind: PlatformWarningKind::MissingStartupFunction, message });
        }
        let ghost after1 = warnings@.map_values(|w: PlatformWarning| warning_view(w));
        if param_count != self.startup_params.len() {
            let mut message = string_of("startup function `");
            message.append(self.startup_function.as_str());
            message.append("` should take ");
            push_decimal(&mut message, self.startup_params.len() as u64);
            message.append(" parameters, takes ");
            push_decimal(&mut message, param_count as u64);
            let ghost before = warnings@;
            warnings.push(PlatformWarning { kind: PlatformWarningKind::WrongStartupSignature, message });
            assert(warnings@.map_values(|w: PlatformWarning| warning_view(w)) =~= before.map_values(
                |w: PlatformWarning| warning_view(w),
            ).push(warning_view(warnings@.last())));
        }
        let ghost after2 = warnings@.map_values(|w: PlatformWarning| warning_view(w));
        if !str_eq(return_type, self.startup_return.as_str()) {
            let mut message = string_of("startup function `");
            message.append(self.startup_function.as_str());
            message.append("` should return `");
            message.append(self.startup_return.as_str());
            message.append("`, returns `");
            message.append(return_type);
            message.append("`");
            let ghost before = warnings@;
            warnings.push(PlatformWarning { kind: PlatformWarningKind::WrongStartupSignature, message });
            assert(warnings@.map_values(|w: PlatformWarning| warning_view(w)) =~= before.map_values(
                |w: PlatformWarning| warning_view(w),
            ).push(warning_view(warnings@.last())));
        }
        assert(warnings@.map_values(|w: PlatformWarning| warning_view(w)) =~= startup_warnings(
            *self,
            startup_name@,
            param_count as nat,
            return_type@,
        ));
        warnings
    }
}

impl Platform {
    /// Validate the selected entry module against the platform startup
    /// contract: it defines the startup function, with the expected
    /// parameter types and return type.
    pub fn validate_entry_startup(&self, entry_iface: &ModuleInterface) -> (r: Result<(), PlatformStartupError>)
        ensures
            match r {
                Ok(()) => entry_startup_outcome(*self, *entry_iface) is None,
                Err(e) => entry_startup_outcome(*self, *entry_iface) == Some((e.kind, e.message@)),
            },
    {
        let module_name = entry_iface.qualified_name();
        let (params, ret_ty) = match entry_iface.functions.get(self.startup_function.as_str()) {
            Some(sig) => (&sig.0, &sig.1),
            None => {
                let mut message = string_of("entry module `");
                message.append(module_name.as_str());
                message.append("` does not define required startup function `");
                message.append(self.startup_function.as_str());
                message.append("` for platform `");
                message.append(self.name.as_str());
                message.append("`");
                return Err(PlatformStartupError { kind: PlatformStartupErrorKind::MissingStartupFunction, message });
            },
        };
        let mut actual_params: Vec<String> = Vec::new();
        let mut i: usize = 0;
        while i < params.len()
            invariant
                i <= params@.len(),
                views(actual_params@) == ty_texts(params@).take(i as int),
            decreases params.len() - i,
        {
            let t = params[i].to_string();
            let ghost before = actual_params@;
            actual_params.push(t);
            assert(views(actual_params@) =~= views(before).push(t@));
            assert(ty_texts(params@).take(i + 1) =~= ty_texts(params@).take(i as int).push(ty_text(params@[i as int])));
            i = i + 1;
        }
        assert(ty_texts(params@).take(params@.len() as int) =~= ty_texts(params@));
        if !same_names(&actual_params, &self.startup_params) {
            let mut message = string_of("startup function `");
            message.append(self.startup_function.as_str());
            message.append("` in entry module `");
            message.append(module_name.as_str());
            message.append("` should take (");
            let expected = join_strings(self.startup_params.as_slice(), ", ");
            message.append(expected.as_str());
            message.append(") for platform `");
            message.append(self.name.as_str());
            message.append("`, found (");
            let found = join_strings(actual_params.as_slice(), ", ");
            message.append(found.as_str());
            message.append(")");
            return Err(PlatformStartupError { kind: PlatformStartupErrorKind::WrongStartupSignature, message });
        }
        let actual_return = ret_ty.to_string();
        if !str_eq(actual_return.as_str(), self.startup_return.as_str()) {
            let mut message = string_of("startup function `");
            message.append(self.startup_function.as_str());
            message.append("` in entry module `");
            message.append(module_name.as_str());
            message.append("` should return `");
            message.append(self.startup_return.as_str());
            message.append("` for platform `");
            message.append(self.name.as_str());
            message.append("`, found `");
            message.append(actual_return.as_str());
            message.append("`");
            return Err(PlatformStartupError { kind: PlatformStartupErrorKind::WrongStartupSignature, message });
        }
        Ok(())
    }
}

/// Whether two lists of names are the same, element by element.
fn same_names(a: &Vec<String>, b: &Vec<String>) -> (r: bool)
    ensures
        r == (views(a@) == views(b@)),
{
    if a.len() != b.len() {
        return false;
    }
    let mut i: usize = 0;
    while i < a.len()
        invariant
            a@.len() == b@.len(),
            i <= a@.len(),
            forall|k: int| 0 <= k < i ==> #[trigger] views(a@)[k] == views(b@)[k],
        decreases a.len() - i,
    {
        if !str_eq(a[i].as_str(), b[i].as_str()) {
            assert(views(a@)[i as int] != views(b@)[i as int]);
            return false;
        }
        i = i + 1;
    }
    assert(views(a@) =~= views(b@));
    true
}

/// Registry of available platforms.
#[derive(Debug)]
pub struct PlatformRegistry {
    platforms: NameMap<Platform>,
}

impl View for PlatformRegistry {
    type V = Map<Seq<char>, Platform>;

    closed spec fn view(&self) -> Map<Seq<char>, Platform> {
        self.platforms@
    }
}

impl Default for PlatformRegistry {
    fn default() -> (r: Self)
        ensures
            r@ == Map::<Seq<char>, Platform>::empty(),
    {
        Self::new()
    }
}

impl PlatformRegistry {
    pub fn new() -> (r: Self)
        ensures
            r@ == Map::<Seq<char>, Platform>::empty(),
    {
        PlatformRegistry { platforms: NameMap::new() }
    }

    /// Create a registry with built-in platforms.
    pub fn with_builtins() -> (r: Self)
        ensures
            r@.dom() == set!["cli"@, "web"@, "embedded"@],
            is_cli(r@["cli"@]),
            is_web(r@["web"@]),
            is_embedded(r@["embedded"@]),
    {
        proof {
            reveal_strlit("cli");
            reveal_strlit("web");
            reveal_strlit("embedded");
        }
        let mut reg = Self::new();
        let cli = Platform::cli();
        let ghost c = cli;
        reg.register(cli);
        let web = Platform::web();
        let ghost w = web;
        reg.register(web);
        let embedded = Platform::embedded();
        let ghost e = embedded;
        reg.register(embedded);
        assert("cli"@ != "web"@) by {
            assert("cli"@[0] != "web"@[0]);
        }
        assert("cli"@ != "embedded"@) by {
            assert("cli"@.len() != "embedded"@.len());
        }
        assert("web"@ != "embedded"@) by {
            assert("web"@.len() != "embedded"@.len());
        }
        assert(reg@["cli"@] == c);
        assert(reg@["web"@] == w);
        assert(reg@.dom() =~= set!["cli"@, "web"@, "embedded"@]);
        reg
    }

    /// Adds a platform under its name, replacing one of the same name.
    pub fn register(&mut self, platform: Platform)
        ensures
            final(self)@ == old(self)@.insert(platform.name@, platform),
    {
        let name = platform.name.clone();
        self.platforms.insert(name, platform);
    }

    pub fn get(&self, name: &str) -> (r: Option<&Platform>)
        ensures
            r == (if self@.contains_key(name@) { Some(&self@[name@]) } else { None::<&Platform> }),
    {
        self.platforms.get(name)
    }

    /// The registered names, in increasing order.
    pub fn all_names(&self) -> (r: Vec<String>)
        ensures
            sorted(views(r@)),
            views(r@).to_set() == self@.dom(),
    {
        self.platforms.keys()
    }
}

} // verus!
