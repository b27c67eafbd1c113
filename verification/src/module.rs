//! Module system — interfaces, exports, import validation and dependency
//! cycles.

use vstd::prelude::*;
use crate::ast::{Span, Visibility};
use crate::effect_set::EffectSet;
use crate::env::HandlerInfo;
use crate::name_map::NameMap;
use crate::names::{views, sorted, sorted_listing, lemma_sorted_unique, join_with, join_strings};
use crate::text::string_of;
use crate::types::{Ty, TyV, lemma_tys_view, ty_view, tys_view};

verus! {

/// Visibility of an exported symbol.
#[derive(Debug, Clone, Copy, PartialEq, Eq, Structural)]
pub enum SymbolVisibility {
    Private,
    PubPkg,
    Pub,
}

/// The export visibility of a declared visibility.
pub open spec fn symbol_visibility_of(v: Visibility) -> SymbolVisibility {
    match v {
        Visibility::Private => SymbolVisibility::Private,
        Visibility::PubPkg => SymbolVisibility::PubPkg,
        Visibility::Pub => SymbolVisibility::Pub,
    }
}

impl From<&Visibility> for SymbolVisibility {
    fn from(v: &Visibility) -> (r: Self) {
        match v {
            Visibility::Private => SymbolVisibility::Private,
            Visibility::PubPkg => SymbolVisibility::PubPkg,
            Visibility::Pub => SymbolVisibility::Pub,
        }
    }
}

impl vstd::std_specs::convert::FromSpecImpl<&Visibility> for SymbolVisibility {
    open spec fn obeys_from_spec() -> bool {
        true
    }

    open spec fn from_spec(v: &Visibility) -> Self {
        symbol_visibility_of(*v)
    }
}

/// Options for how the synthetic prelude should be assembled.
#[derive(Debug, Clone, Copy, PartialEq, Eq)]
pub struct PreludeOptions {
    pub include_console: bool,
}

impl Default for PreludeOptions {
    fn default() -> (r: Self)
        ensures
            r.include_console,
    {
        PreludeOptions { include_console: true }
    }
}

/// The kind of an imported symbol.
#[derive(Debug, Clone, Copy, PartialEq, Eq, Structural)]
pub enum ImportedSymbol {
    Function,
    Type,
    Struct,
    Handler,
    Interface,
}

/// Module resolution errors.
#[derive(Debug, PartialEq, Eq)]
pub enum ModuleError {
    ModuleNotFound(String),
    SymbolNotFound { module: String, symbol: String },
    PrivateSymbol { module: String, symbol: String },
    CircularDependency(Vec<String>),
    IoError { module: String, detail: String },
    /// The parse errors, each by its message.
    ParseErrors { module: String, errors: Vec<String> },
}

/// The message of a module error.
pub open spec fn module_error_text(e: ModuleError) -> Seq<char> {
    match e {
        ModuleError::ModuleNotFound(m) => "module `"@ + m@ + "` not found"@,
        ModuleError::SymbolNotFound { module, symbol } => "symbol `"@ + symbol@ + "` not found in module `"@
            + module@ + "`"@,
        ModuleError::PrivateSymbol { module, symbol } => "symbol `"@ + symbol@ + "` in module `"@ + module@
            + "` is private and not accessible"@,
        ModuleError::CircularDependency(cycle) => "circular module dependency: "@ + join_with(
            views(cycle@),
            " -> "@,
        ),
        ModuleError::IoError { module, detail } => "cannot read module `"@ + module@ + "`: "@ + detail@,
        ModuleError::ParseErrors { module, errors } => "parse error in module `"@ + module@ + "`: "@
            + join_with(views(errors@), "\n"@),
    }
}

impl ModuleError {
    /// The error's message.
    pub fn to_string(&self) -> (s: String)
        ensures
            s@ == module_error_text(*self),
    {
        let mut s = String::new();
        match self {
            ModuleError::ModuleNotFound(m) => {
                s.append("module `");
                s.append(m.as_str());
                s.append("` not found");
            },
            ModuleError::SymbolNotFound { module, symbol } => {
                s.append("symbol `");
                s.append(symbol.as_str());
                s.append("` not found in module `");
                s.append(module.as_str());
                s.append("`");
            },
            ModuleError::PrivateSymbol { module, symbol } => {
                s.append("symbol `");
                s.append(symbol.as_str());
                s.append("` in module `");
                s.append(module.as_str());
                s.append("` is private and not accessible");
            },
            ModuleError::CircularDependency(cycle) => {
                s.append("circular module dependency: ");
                let joined = join_strings(cycle.as_slice(), " -> ");
                s.append(joined.as_str());
            },
            ModuleError::IoError { module, detail } => {
                s.append("cannot read module `");
                s.append(module.as_str());
                s.append("`: ");
                s.append(detail.as_str());
            },
            ModuleError::ParseErrors { module, errors } => {
                s.append("parse error in module `");
                s.append(module.as_str());
                s.append("`: ");
                let joined = join_strings(errors.as_slice(), "\n");
                s.append(joined.as_str());
            },
        }
        assert(s@ =~= module_error_text(*self));
        s
    }
}

/// An import-resolution failure annotated with the import site that
/// triggered it.
#[derive(Debug)]
pub struct ImportResolutionError {
    pub importing_module: String,
    pub imported_module: String,
    pub import_span: Option<Span>,
    pub error: ModuleError,
}

impl ImportResolutionError {
    pub fn new(
        importing_module: String,
        imported_module: String,
        import_span: Option<Span>,
        error: ModuleError,
    ) -> (r: Self)
        ensures
            r == (ImportResolutionError { importing_module, imported_module, import_span, error }),
    {
        ImportResolutionError { importing_module, imported_module, import_span, error }
    }

    /// The message of the underlying error.
    pub fn to_string(&self) -> (s: String)
        ensures
            s@ == module_error_text(self.error),
    {
        self.error.to_string()
    }
}

/// A compiled module's public interface.
#[derive(Debug)]
pub struct ModuleInterface {
    /// Module path (e.g., ["Std", "Collections", "List"])
    pub path: Vec<String>,
    /// Exported functions: name → (param types, return type)
    pub functions: NameMap<(Vec<Ty>, Ty)>,
    /// Exported function capabilities: name → declared `uses [...]`
    pub function_caps: NameMap<EffectSet>,
    /// Exported function error sets: name → declared `! E1 | E2`
    pub function_errors: NameMap<EffectSet>,
    /// Exported generic function type parameters.
    pub function_type_params: NameMap<Vec<String>>,
    /// Exported generic `where` bounds for functions.
    pub function_where_bounds: NameMap<Vec<(String, String)>>,
    /// Exported types: name → variant names + field types
    pub types: NameMap<Vec<(String, Vec<Ty>)>>,
    /// Exported structs: name → field names + types
    pub structs: NameMap<Vec<(String, Ty)>>,
    /// Exported generic struct parameters: name → ordered type parameter names
    pub struct_type_params: NameMap<Vec<String>>,
    /// Exported capabilities
    pub capabilities: EffectSet,
    /// Exported capability/effect method signatures.
    pub capability_methods: NameMap<(Vec<String>, Vec<(String, Vec<Ty>, Ty)>)>,
    /// Exported named handlers
    pub handlers: NameMap<HandlerInfo>,
    /// Visibility of each symbol
    pub visibilities: NameMap<SymbolVisibility>,
}

impl ModuleInterface {
    /// The dot-separated module name.
    pub open spec fn qualified(&self) -> Seq<char> {
        join_with(views(self.path@), "."@)
    }

    /// The names this module exports.
    pub open spec fn export_set(&self) -> Set<Seq<char>> {
        self.functions@.dom() + self.types@.dom() + self.structs@.dom() + self.capabilities@
            + self.handlers@.dom()
    }

    /// The visibility of a name: as set, else public.
    pub open spec fn visibility_of(&self, name: Seq<char>) -> SymbolVisibility {
        if self.visibilities@.contains_key(name) {
            self.visibilities@[name]
        } else {
            SymbolVisibility::Pub
        }
    }

    /// What kind of symbol an exported name is.
    pub open spec fn kind_of(&self, name: Seq<char>) -> ImportedSymbol {
        if self.functions@.contains_key(name) {
            ImportedSymbol::Function
        } else if self.types@.contains_key(name) {
            ImportedSymbol::Type
        } else if self.structs@.contains_key(name) {
            ImportedSymbol::Struct
        } else if self.handlers@.contains_key(name) {
            ImportedSymbol::Handler
        } else {
            ImportedSymbol::Interface
        }
    }

    /// An interface at `path` that exports nothing.
    pub fn new(path: Vec<String>) -> (r: Self)
        ensures
            r.path == path,
            r.functions@ == Map::<Seq<char>, (Vec<Ty>, Ty)>::empty(),
            r.types@ == Map::<Seq<char>, Vec<(String, Vec<Ty>)>>::empty(),
            r.structs@ == Map::<Seq<char>, Vec<(String, Ty)>>::empty(),
            r.capabilities@ == Set::<Seq<char>>::empty(),
            r.handlers@ == Map::<Seq<char>, HandlerInfo>::empty(),
            r.visibilities@ == Map::<Seq<char>, SymbolVisibility>::empty(),
            r.function_caps@ == Map::<Seq<char>, EffectSet>::empty(),
            r.function_errors@ == Map::<Seq<char>, EffectSet>::empty(),
            r.function_type_params@ == Map::<Seq<char>, Vec<String>>::empty(),
            r.function_where_bounds@ == Map::<Seq<char>, Vec<(String, String)>>::empty(),
            r.struct_type_params@ == Map::<Seq<char>, Vec<String>>::empty(),
            r.capability_methods@ == Map::<Seq<char>, (Vec<String>, Vec<(String, Vec<Ty>, Ty)>)>::empty(),
            r.export_set() == Set::<Seq<char>>::empty(),
    {
        let r = ModuleInterface {
            path,
            functions: NameMap::new(),
            function_caps: NameMap::new(),
            function_errors: NameMap::new(),
            function_type_params: NameMap::new(),
            function_where_bounds: NameMap::new(),
            types: NameMap::new(),
            structs: NameMap::new(),
            struct_type_params: NameMap::new(),
            capabilities: EffectSet::new(),
            capability_methods: NameMap::new(),
            handlers: NameMap::new(),
            visibilities: NameMap::new(),
        };
        assert(r.export_set() =~= Set::<Seq<char>>::empty());
        r
    }

    /// Set visibility for a symbol.
    pub fn set_visibility(&mut self, name: &str, vis: SymbolVisibility)
        ensures
            final(self).visibilities@ == old(self).visibilities@.insert(name@, vis),
            final(self).path == old(self).path,
            final(self).functions == old(self).functions,
            final(self).function_caps == old(self).function_caps,
            final(self).function_errors == old(self).function_errors,
            final(self).function_type_params == old(self).function_type_params,
            final(self).function_where_bounds == old(self).function_where_bounds,
            final(self).types == old(self).types,
            final(self).structs == old(self).structs,
            final(self).struct_type_params == old(self).struct_type_params,
            final(self).capabilities == old(self).capabilities,
            final(self).capability_methods == old(self).capability_methods,
            final(self).handlers == old(self).handlers,
    {
        self.visibilities.insert(string_of(name), vis);
    }

    /// Get visibility of a symbol (public for unset entries, e.g. prelude).
    pub fn visibility(&self, name: &str) -> (v: SymbolVisibility)
        ensures
            v == self.visibility_of(name@),
    {
        match self.visibilities.get(name) {
            Some(v) => *v,
            None => SymbolVisibility::Pub,
        }
    }

    /// Get the fully-qualified (dot-separated) module name.
    pub fn qualified_name(&self) -> (s: String)
        ensures
            s@ == self.qualified(),
    {
        join_strings(self.path.as_slice(), ".")
    }

    /// Check if a name is exported by this module.
    pub fn exports(&self, name: &str) -> (b: bool)
        ensures
            b == self.export_set().contains(name@),
    {
        self.functions.contains_key(name) || self.types.contains_key(name)
            || self.structs.contains_key(name) || self.capabilities.contains(name)
            || self.handlers.contains_key(name)
    }

    /// All exported names, in increasing order, each once.
    pub fn all_exports(&self) -> (r: Vec<String>)
        ensures
            sorted(views(r@)),
            views(r@).to_set() == self.export_set(),
    {
        let mut all = EffectSet::new();
        let f = self.functions.keys();
        let t = self.types.keys();
        let s = self.structs.keys();
        let c = self.capabilities.iter();
        let h = self.handlers.keys();
        add_all(&mut all, f.as_slice());
        add_all(&mut all, t.as_slice());
        add_all(&mut all, s.as_slice());
        add_all(&mut all, c);
        add_all(&mut all, h.as_slice());
        let names = all.iter();
        let r = crate::names::clone_names(names);
        assert(views(r@).to_set() =~= self.export_set());
        r
    }
}

/// A name the import may not bring in: not exported, or private.
pub open spec fn refused(m: ModuleInterface, name: Seq<char>) -> bool {
    !m.export_set().contains(name) || m.visibility_of(name) == SymbolVisibility::Private
}

/// The position of the first refused name (the length if none is).
pub open spec fn first_refused(m: ModuleInterface, names: Seq<Seq<char>>) -> int
    decreases names.len(),
{
    if names.len() == 0 {
        0
    } else if refused(m, names[0]) {
        0
    } else {
        1 + first_refused(m, names.drop_first())
    }
}

/// The functions the prelude provides besides those of the standard library
/// source, the console ones only when asked for.
pub open spec fn builtin_functions(include_console: bool) -> Set<Seq<char>> {
    let common = set![
        "string_length"@, "split"@, "trim"@, "to_upper"@, "to_lower"@, "starts_with"@,
        "ends_with"@, "char_at"@, "char_to_int"@, "int_to_char"@, "substring"@, "replace"@,
        "to_string"@, "string_index_of"@, "abs"@, "min"@, "max"@, "len"@, "range"@, "reverse"@,
        "map"@, "filter"@, "fold"@, "each"@, "append"@, "prepend"@, "head"@, "tail"@,
        "contains"@, "concat"@,
    ];
    if include_console {
        common + set!["print"@, "println"@, "read_line"@]
    } else {
        common
    }
}

/// The value of each signature: parameter types and result type.
pub open spec fn signature_views(m: Map<Seq<char>, (Vec<Ty>, Ty)>) -> Map<Seq<char>, (Seq<TyV>, TyV)> {
    m.map_values(|s: (Vec<Ty>, Ty)| (tys_view(s.0@), ty_view(s.1)))
}

/// The effects each function of a table requires.
pub open spec fn cap_views(m: Map<Seq<char>, EffectSet>) -> Map<Seq<char>, Set<Seq<char>>> {
    m.map_values(|e: EffectSet| e@)
}

/// `after` is `before` with the built-in prelude registered as
/// `Std.Prelude`: the builtin functions (the console ones when asked for,
/// each requiring `Console`), the type `List` without variants, and
/// nothing else.
pub open spec fn registers_prelude(before: ModuleRegistry, after: ModuleRegistry, console: bool) -> bool {
    let m = after.modules_view()["Std.Prelude"@];
    &&& after.modules_view().dom() == before.modules_view().dom().insert("Std.Prelude"@)
    &&& forall|k: Seq<char>|
        k != "Std.Prelude"@ && #[trigger] before.modules_view().contains_key(k)
            ==> after.modules_view()[k] == before.modules_view()[k]
    &&& views(m.path@) == seq!["Std"@, "Prelude"@]
    &&& m.functions@.dom() == builtin_functions(console)
    &&& signature_views(m.functions@) == with_builtins(Map::empty(), console)
    &&& cap_views(m.function_caps@) == if console {
        Map::<Seq<char>, Set<Seq<char>>>::empty().insert("print"@, set!["Console"@]).insert(
            "println"@,
            set!["Console"@],
        ).insert("read_line"@, set!["Console"@])
    } else {
        Map::<Seq<char>, Set<Seq<char>>>::empty()
    }
    &&& m.types@.dom() == set!["List"@]
    &&& m.types@["List"@]@.len() == 0
    &&& m.structs@ == Map::<Seq<char>, Vec<(String, Ty)>>::empty()
    &&& m.capabilities@ == Set::<Seq<char>>::empty()
    &&& m.handlers@ == Map::<Seq<char>, HandlerInfo>::empty()
    &&& m.visibilities@ == Map::<Seq<char>, SymbolVisibility>::empty()
    &&& m.function_errors@ == Map::<Seq<char>, EffectSet>::empty()
    &&& m.function_type_params@ == Map::<Seq<char>, Vec<String>>::empty()
    &&& m.function_where_bounds@ == Map::<Seq<char>, Vec<(String, String)>>::empty()
    &&& m.struct_type_params@ == Map::<Seq<char>, Vec<String>>::empty()
    &&& m.capability_methods@ == Map::<Seq<char>, (Vec<String>, Vec<(String, Vec<Ty>, Ty)>)>::empty()
    &&& m.export_set() == builtin_functions(console).insert("List"@)
    &&& after.imports() == before.imports()
}

/// `List[t]`.
pub open spec fn list_v(t: TyV) -> TyV {
    TyV::App("List"@, seq![t])
}

/// `Option[t]`.
pub open spec fn option_v(t: TyV) -> TyV {
    TyV::App("Option"@, seq![t])
}

/// A function type with no effects.
pub open spec fn pure_fn_v(ps: Seq<TyV>, r: TyV) -> TyV {
    TyV::Fn(ps, Box::new(r), Seq::empty())
}

/// The signatures of the console builtins, added to `m`.
pub open spec fn with_console_builtins(m: Map<Seq<char>, (Seq<TyV>, TyV)>) -> Map<
    Seq<char>,
    (Seq<TyV>, TyV),
> {
    m.insert("print"@, (seq![TyV::Str], TyV::Unit)).insert("println"@, (seq![TyV::Str], TyV::Unit)).insert(
        "read_line"@,
        (seq![], TyV::Str),
    )
}

/// The signatures of the builtins every prelude has, added to `m` in this
/// order (each replaces an entry of its name); `?T0` and `?T1` stand for
/// the element types of the generic ones.
pub open spec fn with_common_builtins(m: Map<Seq<char>, (Seq<TyV>, TyV)>) -> Map<
    Seq<char>,
    (Seq<TyV>, TyV),
> {
    let a = TyV::Var(0);
    let b = TyV::Var(1);
    let s = TyV::Str;
    let i = TyV::I64;
    m.insert("string_length"@, (seq![s], i))
        .insert("split"@, (seq![s, s], list_v(s)))
        .insert("trim"@, (seq![s], s))
        .insert("to_upper"@, (seq![s], s))
        .insert("to_lower"@, (seq![s], s))
        .insert("starts_with"@, (seq![s, s], TyV::Bool))
        .insert("ends_with"@, (seq![s, s], TyV::Bool))
        .insert("char_at"@, (seq![s, i], option_v(s)))
        .insert("char_to_int"@, (seq![s], i))
        .insert("int_to_char"@, (seq![i], s))
        .insert("substring"@, (seq![s, i, i], s))
        .insert("replace"@, (seq![s, s, s], s))
        .insert("to_string"@, (seq![a], s))
        .insert("string_index_of"@, (seq![s, s], i))
        .insert("abs"@, (seq![i], i))
        .insert("min"@, (seq![i, i], i))
        .insert("max"@, (seq![i, i], i))
        .insert("len"@, (seq![a], i))
        .insert("range"@, (seq![i, i], list_v(i)))
        .insert("reverse"@, (seq![list_v(a)], list_v(a)))
        .insert("map"@, (seq![list_v(a), pure_fn_v(seq![a], b)], list_v(b)))
        .insert("filter"@, (seq![list_v(a), pure_fn_v(seq![a], TyV::Bool)], list_v(a)))
        .insert("fold"@, (seq![list_v(a), b, pure_fn_v(seq![b, a], b)], b))
        .insert("each"@, (seq![list_v(a), pure_fn_v(seq![a], TyV::Unit)], TyV::Unit))
        .insert("append"@, (seq![list_v(a), a], list_v(a)))
        .insert("prepend"@, (seq![a, list_v(a)], list_v(a)))
        .insert("head"@, (seq![list_v(a)], option_v(a)))
        .insert("tail"@, (seq![list_v(a)], option_v(list_v(a))))
        .insert("contains"@, (seq![list_v(a), a], TyV::Bool))
        .insert("concat"@, (seq![list_v(a), list_v(a)], list_v(a)))
}

/// The signatures of a prelude built on `m`: the console builtins when
/// asked for, then the common ones.
pub open spec fn with_builtins(m: Map<Seq<char>, (Seq<TyV>, TyV)>, include_console: bool) -> Map<
    Seq<char>,
    (Seq<TyV>, TyV),
> {
    with_common_builtins(
        if include_console {
            with_console_builtins(m)
        } else {
            m
        },
    )
}

/// `u` imports from `v`.
pub open spec fn imports_from(g: Map<Seq<char>, Seq<Seq<char>>>, u: Seq<char>, v: Seq<char>) -> bool {
    g.contains_key(u) && g[u].contains(v)
}

/// A closed chain of imports: it starts and ends at the same module and
/// each module imports from the next.
pub open spec fn is_import_cycle(g: Map<Seq<char>, Seq<Seq<char>>>, c: Seq<Seq<char>>) -> bool {
    &&& c.len() >= 2
    &&& c[0] == c.last()
    &&& forall|i: int| 0 < i < c.len() ==> imports_from(g, c[i - 1], #[trigger] c[i])
}

/// Some chain of imports is circular.
pub open spec fn has_import_cycle(g: Map<Seq<char>, Seq<Seq<char>>>) -> bool {
    exists|c: Seq<Seq<char>>| #[trigger] is_import_cycle(g, c)
}

/// Where `x` stands in `st`.
pub open spec fn index_in(st: Seq<Seq<char>>, x: Seq<char>) -> int {
    choose|k: int| 0 <= k < st.len() && st[k] == x
}

/// Depth-first search for import cycles from `node`, with `visited` the
/// modules seen so far and `stack` those in progress: the modules seen
/// afterwards, and the cycles found, in the order found. Each cycle is the
/// stack from an imported module that is still in progress on, followed by
/// that module again. `fuel` bounds the depth of the search.
pub open spec fn dfs_visit(
    g: Map<Seq<char>, Seq<Seq<char>>>,
    node: Seq<char>,
    visited: Set<Seq<char>>,
    stack: Seq<Seq<char>>,
    fuel: nat,
) -> (Set<Seq<char>>, Seq<Seq<Seq<char>>>)
    decreases fuel, 0nat, 0int,
{
    if fuel == 0 {
        (visited, Seq::empty())
    } else if g.contains_key(node) {
        dfs_deps(g, g[node], 0, visited.insert(node), stack.push(node), (fuel - 1) as nat)
    } else {
        (visited.insert(node), Seq::empty())
    }
}

/// The search over the imports `deps` from the `i`-th on, of the module on
/// top of `stack`.
pub open spec fn dfs_deps(
    g: Map<Seq<char>, Seq<Seq<char>>>,
    deps: Seq<Seq<char>>,
    i: nat,
    visited: Set<Seq<char>>,
    stack: Seq<Seq<char>>,
    fuel: nat,
) -> (Set<Seq<char>>, Seq<Seq<Seq<char>>>)
    decreases fuel, 1nat, deps.len() - i,
{
    if i >= deps.len() {
        (visited, Seq::empty())
    } else {
        let dep = deps[i as int];
        let first = if !visited.contains(dep) {
            dfs_visit(g, dep, visited, stack, fuel)
        } else if stack.contains(dep) {
            (visited, seq![stack.subrange(index_in(stack, dep), stack.len() as int).push(dep)])
        } else {
            (visited, Seq::empty())
        };
        let rest = dfs_deps(g, deps, i + 1, first.0, stack, fuel);
        (rest.0, first.1 + rest.1)
    }
}

/// The search started from each of `roots`, from the `i`-th on, that is
/// not yet visited.
pub open spec fn dfs_roots(
    g: Map<Seq<char>, Seq<Seq<char>>>,
    roots: Seq<Seq<char>>,
    i: nat,
    visited: Set<Seq<char>>,
    fuel: nat,
) -> (Set<Seq<char>>, Seq<Seq<Seq<char>>>)
    decreases roots.len() - i,
{
    if i >= roots.len() {
        (visited, Seq::empty())
    } else if visited.contains(roots[i as int]) {
        dfs_roots(g, roots, i + 1, visited, fuel)
    } else {
        let first = dfs_visit(g, roots[i as int], visited, Seq::empty(), fuel);
        let rest = dfs_roots(g, roots, i + 1, first.0, fuel);
        (rest.0, first.1 + rest.1)
    }
}

/// The import cycles that the depth-first search finds, starting from the
/// importing modules in increasing name order, in the order it finds them.
pub open spec fn found_cycles(g: Map<Seq<char>, Seq<Seq<char>>>) -> Seq<Seq<Seq<char>>> {
    dfs_roots(g, sorted_listing(g.dom()), 0, Set::empty(), g.dom().len() + 1).1
}

/// Each list of module names, by its names.
pub open spec fn path_views(v: Seq<Vec<String>>) -> Seq<Seq<Seq<char>>> {
    v.map_values(|c: Vec<String>| views(c@))
}

/// The cycle that an import error reports.
pub open spec fn error_path(e: ModuleError) -> Seq<Seq<char>> {
    match e {
        ModuleError::CircularDependency(c) => views(c@),
        _ => Seq::empty(),
    }
}

/// The cycles that a list of import errors reports.
pub open spec fn cycle_paths(errs: Seq<ImportResolutionError>) -> Seq<Seq<Seq<char>>> {
    errs.map_values(|e: ImportResolutionError| error_path(e.error))
}

/// Every module imported by a module finished earlier finished before it.
pub open spec fn finish_ordered(g: Map<Seq<char>, Seq<Seq<char>>>, done: Seq<Seq<char>>) -> bool {
    forall|i: int, v: Seq<char>| 0 <= i < done.len() && #[trigger] imports_from(g, done[i], v) ==> done.take(i).contains(v)
}

/// In a finish order where imported modules finish first, no chain of
/// imports among finished modules comes back to its start.
pub proof fn lemma_finish_order_acyclic(g: Map<Seq<char>, Seq<Seq<char>>>, done: Seq<Seq<char>>, c: Seq<Seq<char>>)
    requires
        finish_ordered(g, done),
        done.no_duplicates(),
        forall|i: int| 0 <= i < c.len() - 1 ==> done.contains(#[trigger] c[i]),
    ensures
        !is_import_cycle(g, c),
{
    if is_import_cycle(g, c) {
        // positions in the finish order strictly decrease along the chain
        let last = c.len() - 1;
        lemma_chain_positions(g, done, c, last);
        assert(done.contains(c[0]));
        let p = choose|p: int| 0 <= p <= done.index_of(c[0]) - last && done[p] == c[last];
        assert(c[last] == c[0]);
        assert(done[done.index_of(c[0])] == c[0]);
    }
}

proof fn lemma_chain_positions(g: Map<Seq<char>, Seq<Seq<char>>>, done: Seq<Seq<char>>, c: Seq<Seq<char>>, i: int)
    requires
        finish_ordered(g, done),
        done.no_duplicates(),
        is_import_cycle(g, c),
        forall|k: int| 0 <= k < c.len() - 1 ==> done.contains(#[trigger] c[k]),
        0 <= i < c.len(),
    ensures
        exists|p: int| 0 <= p <= done.index_of(c[0]) - i && done[p] == c[i],
    decreases i,
{
    if i == 0 {
        assert(done.contains(c[0]));
        let p = done.index_of(c[0]);
        assert(done[p] == c[0]);
    } else {
        lemma_chain_positions(g, done, c, i - 1);
        let p = choose|p: int| 0 <= p <= done.index_of(c[0]) - (i - 1) && done[p] == c[i - 1];
        assert(imports_from(g, c[i - 1], c[i]));
        assert(imports_from(g, done[p], c[i]));
        assert(done.take(p).contains(c[i]));
        let q = choose|q: int| 0 <= q < p && #[trigger] done.take(p)[q] == c[i];
        assert(done[q] == c[i]);
    }
}

/// Marking one more of a finite set of names visited counts one more of them.
proof fn lemma_visit_counts(v: Set<Seq<char>>, k: Set<Seq<char>>, x: Seq<char>)
    requires
        k.finite(),
        k.contains(x),
        !v.contains(x),
    ensures
        v.insert(x).intersect(k).len() == v.intersect(k).len() + 1,
        v.insert(x).intersect(k).len() <= k.len(),
{
    assert(v.insert(x).intersect(k) =~= v.intersect(k).insert(x));
    vstd::set_lib::lemma_len_subset(v.intersect(k), k);
    vstd::set_lib::lemma_len_subset(v.insert(x).intersect(k), k);
}

/// Visiting more names never counts fewer of them.
proof fn lemma_visit_monotone(v: Set<Seq<char>>, w: Set<Seq<char>>, k: Set<Seq<char>>)
    requires
        k.finite(),
        v.subset_of(w),
    ensures
        v.intersect(k).len() <= w.intersect(k).len(),
        w.intersect(k).len() <= k.len(),
{
    vstd::set_lib::lemma_len_subset(w.intersect(k), k);
    vstd::set_lib::lemma_len_subset(v.intersect(k), w.intersect(k));
}

/// Dependency edge: an imported module and where the import is written.
#[derive(Debug)]
struct DependencyEdge {
    module: String,
    span: Option<Span>,
}

/// Module registry — stores all known modules and their interfaces.
#[derive(Debug)]
pub struct ModuleRegistry {
    modules: NameMap<ModuleInterface>,
    /// Module dependencies for cycle detection: module → the modules it
    /// imports from, in recording order.
    dependencies: NameMap<Vec<DependencyEdge>>,
}

/// The imported module names of a list of edges.
closed spec fn edge_targets(edges: Seq<DependencyEdge>) -> Seq<Seq<char>> {
    edges.map_values(|e: DependencyEdge| e.module@)
}

impl Default for ModuleRegistry {
    fn default() -> (r: Self)
        ensures
            r.modules_view() == Map::<Seq<char>, ModuleInterface>::empty(),
            r.imports() == Map::<Seq<char>, Seq<Seq<char>>>::empty(),
    {
        Self::new()
    }
}

impl ModuleRegistry {
    /// The registered modules by qualified name.
    pub closed spec fn modules_view(&self) -> Map<Seq<char>, ModuleInterface> {
        self.modules@
    }

    /// Each importing module with the modules it imports, in recording order.
    pub closed spec fn imports(&self) -> Map<Seq<char>, Seq<Seq<char>>> {
        Map::new(
            |k: Seq<char>| self.dependencies@.contains_key(k),
            |k: Seq<char>| edge_targets(self.dependencies@[k]@),
        )
    }

    pub fn new() -> (r: Self)
        ensures
            r.modules_view() == Map::<Seq<char>, ModuleInterface>::empty(),
            r.imports() == Map::<Seq<char>, Seq<Seq<char>>>::empty(),
    {
        let r = ModuleRegistry { modules: NameMap::new(), dependencies: NameMap::new() };
        assert(r.imports() =~= Map::<Seq<char>, Seq<Seq<char>>>::empty());
        r
    }

    /// Register a module interface under its qualified name.
    pub fn register(&mut self, module: ModuleInterface)
        ensures
            final(self).modules_view() == old(self).modules_view().insert(module.qualified(), module),
            final(self).imports() == old(self).imports(),
    {
        let key = module.qualified_name();
        self.modules.insert(key, module);
    }

    /// Record that `importing_module` depends on `imported_module`.
    pub fn record_dependency(&mut self, importing_module: &str, imported_module: &str)
        ensures
            final(self).modules_view() == old(self).modules_view(),
            final(self).imports() == old(self).imports().insert(
                importing_module@,
                (if old(self).imports().contains_key(importing_module@) {
                    old(self).imports()[importing_module@]
                } else {
                    Seq::empty()
                }).push(imported_module@),
            ),
    {
        self.record_dependency_with_span(importing_module, imported_module, None);
    }

    /// Record that `importing_module` depends on `imported_module` at `span`.
    pub fn record_dependency_with_span(
        &mut self,
        importing_module: &str,
        imported_module: &str,
        span: Option<Span>,
    )
        ensures
            final(self).modules_view() == old(self).modules_view(),
            final(self).imports() == old(self).imports().insert(
                importing_module@,
                (if old(self).imports().contains_key(importing_module@) {
                    old(self).imports()[importing_module@]
                } else {
                    Seq::empty()
                }).push(imported_module@),
            ),
    {
        let mut edges: Vec<DependencyEdge> = Vec::new();
        let ghost old_edges: Seq<DependencyEdge> = if self.dependencies@.contains_key(importing_module@) {
            self.dependencies@[importing_module@]@
        } else {
            Seq::empty()
        };
        match self.dependencies.get(importing_module) {
            Some(existing) => {
                let mut i: usize = 0;
                while i < existing.len()
                    invariant
                        i <= existing@.len(),
                        edge_targets(edges@) == edge_targets(existing@.take(i as int)),
                    decreases existing.len() - i,
                {
                    let c = existing[i].module.clone();
                    assert(c@ == existing@[i as int].module@);
                    let e = DependencyEdge { module: c, span: existing[i].span };
                    let ghost before = edges@;
                    edges.push(e);
                    assert(edge_targets(edges@) =~= edge_targets(before).push(c@));
                    assert(existing@.take(i + 1) =~= existing@.take(i as int).push(existing@[i as int]));
                    assert(edge_targets(existing@.take(i + 1)) =~= edge_targets(existing@.take(i as int)).push(c@));
                    assert(edge_targets(edges@) =~= edge_targets(existing@.take(i + 1)));
                    i = i + 1;
                }
                assert(existing@.take(existing@.len() as int) =~= existing@);
            },
            None => {},
        }
        assert(edge_targets(edges@) == edge_targets(old_edges));
        edges.push(DependencyEdge { module: string_of(imported_module), span });
        assert(edge_targets(edges@) =~= edge_targets(old_edges).push(imported_module@));
        let ghost new_targets = edge_targets(edges@);
        self.dependencies.insert(string_of(importing_module), edges);
        assert forall|k: Seq<char>| #[trigger] self.imports().contains_key(k) implies self.imports()[k] == old(self).imports().insert(
            importing_module@,
            (if old(self).imports().contains_key(importing_module@) {
                old(self).imports()[importing_module@]
            } else {
                Seq::empty()
            }).push(imported_module@),
        )[k] by {
            if k == importing_module@ {
                assert(self.imports()[k] == new_targets);
            }
        }
        assert(self.imports() =~= old(self).imports().insert(
            importing_module@,
            (if old(self).imports().contains_key(importing_module@) {
                old(self).imports()[importing_module@]
            } else {
                Seq::empty()
            }).push(imported_module@),
        ));
    }

    /// Look up a module by its path segments.
    pub fn get(&self, path: &[String]) -> (r: Option<&ModuleInterface>)
        ensures
            r == (if self.modules_view().contains_key(join_with(views(path@), "."@)) {
                Some(&self.modules_view()[join_with(views(path@), "."@)])
            } else {
                None::<&ModuleInterface>
            }),
    {
        let key = join_strings(path, ".");
        self.modules.get(key.as_str())
    }

    /// Look up a module by its dot-separated path string.
    pub fn get_by_path(&self, path: &str) -> (r: Option<&ModuleInterface>)
        ensures
            r == (if self.modules_view().contains_key(path@) {
                Some(&self.modules_view()[path@])
            } else {
                None::<&ModuleInterface>
            }),
    {
        self.modules.get(path)
    }

    /// Resolve an import: check that the module exists and the requested
    /// names are exported and visible; give each name's kind.
    pub fn resolve_import(&self, path: &[String], requested_names: &[String]) -> (r: Result<
        Vec<(String, ImportedSymbol)>,
        ModuleError,
    >)
        ensures
            !self.modules_view().contains_key(join_with(views(path@), "."@)) ==> (r matches Err(
                ModuleError::ModuleNotFound(m),
            ) && m@ == join_with(views(path@), "."@)),
            self.modules_view().contains_key(join_with(views(path@), "."@)) ==> ({
                let key = join_with(views(path@), "."@);
                let m = self.modules_view()[key];
                let names = views(requested_names@);
                let i = first_refused(m, names);
                &&& 0 <= i <= names.len()
                &&& i < names.len() && !m.export_set().contains(names[i]) ==> (r matches Err(
                    ModuleError::SymbolNotFound { module, symbol },
                ) && module@ == key && symbol@ == names[i])
                &&& i < names.len() && m.export_set().contains(names[i]) ==> (r matches Err(
                    ModuleError::PrivateSymbol { module, symbol },
                ) && module@ == key && symbol@ == names[i])
                &&& i == names.len() ==> (r matches Ok(v) && v@.len() == names.len() && forall|j: int|
                    0 <= j < names.len() ==> (#[trigger] v@[j]).0@ == names[j] && v@[j].1 == m.kind_of(
                        names[j],
                    ))
            }),
    {
        let key = join_strings(path, ".");
        let module = match self.modules.get(key.as_str()) {
            Some(m) => m,
            None => {
                return Err(ModuleError::ModuleNotFound(key));
            },
        };
        let ghost names = views(requested_names@);
        let ghost m = *module;
        let mut resolved: Vec<(String, ImportedSymbol)> = Vec::new();
        let mut i: usize = 0;
        assert(names.skip(0) =~= names);
        while i < requested_names.len()
            invariant
                self.modules_view().contains_key(key@),
                m == self.modules_view()[key@],
                i <= requested_names@.len(),
                names == views(requested_names@),
                m == *module,
                key@ == join_with(views(path@), "."@),
                first_refused(m, names) == i + first_refused(m, names.skip(i as int)),
                forall|k: int| 0 <= k < i ==> !refused(m, #[trigger] names[k]),
                resolved@.len() == i,
                forall|j: int| 0 <= j < i ==> (#[trigger] resolved@[j]).0@ == names[j] && resolved@[j].1 == m.kind_of(names[j]),
            decreases requested_names.len() - i,
        {
            let name = &requested_names[i];
            assert(names.skip(i as int)[0] == names[i as int]);
            assert(names.skip(i as int).drop_first() =~= names.skip(i + 1));
            if !module.exports(name.as_str()) {
                return Err(ModuleError::SymbolNotFound { module: key, symbol: name.clone() });
            }
            if module.visibility(name.as_str()) == SymbolVisibility::Private {
                return Err(ModuleError::PrivateSymbol { module: key, symbol: name.clone() });
            }
            let kind = if module.functions.contains_key(name.as_str()) {
                ImportedSymbol::Function
            } else if module.types.contains_key(name.as_str()) {
                ImportedSymbol::Type
            } else if module.structs.contains_key(name.as_str()) {
                ImportedSymbol::Struct
            } else if module.handlers.contains_key(name.as_str()) {
                ImportedSymbol::Handler
            } else {
                ImportedSymbol::Interface
            };
            resolved.push((name.clone(), kind));
            i = i + 1;
        }
        assert(names.skip(i as int) =~= Seq::<Seq<char>>::empty());
        Ok(resolved)
    }

    /// The search state is consistent: the stack is a chain of imports
    /// without repeats and is exactly the in-progress set; the visited
    /// modules are those in progress and those finished; while no cycle is
    /// found, finished modules finish after those they import; every cycle
    /// found is a closed chain of imports.
    closed spec fn search_ok(
        &self,
        visited: Set<Seq<char>>,
        in_stack: Set<Seq<char>>,
        st: Seq<Seq<char>>,
        done: Seq<Seq<char>>,
        cycles: Seq<ImportResolutionError>,
    ) -> bool {
        let g = self.imports();
        &&& st.no_duplicates()
        &&& st.to_set() == in_stack
        &&& done.no_duplicates()
        &&& visited == in_stack + done.to_set()
        &&& in_stack.disjoint(done.to_set())
        &&& forall|i: int| 0 < i < st.len() ==> imports_from(g, st[i - 1], #[trigger] st[i])
        &&& cycles.len() == 0 ==> finish_ordered(g, done)
        &&& forall|k: int| 0 <= k < cycles.len() ==> ((#[trigger] cycles[k]).error matches ModuleError::CircularDependency(c)
            && is_import_cycle(g, views(c@)))
    }

    /// The modules that import anything.
    closed spec fn importers(&self) -> Set<Seq<char>> {
        self.dependencies@.dom()
    }

    /// Depth-first search from `node` for import cycles: a module imported
    /// by one still in progress closes a cycle, reported as the stack from
    /// that module on, followed by that module again.
    #[verifier::loop_isolation(false)]
    #[verifier::rlimit(100)]
    #[verifier::spinoff_prover]
    fn dfs_detect(
        &self,
        node: &str,
        visited: &mut EffectSet,
        in_stack: &mut EffectSet,
        stack: &mut Vec<String>,
        cycles: &mut Vec<ImportResolutionError>,
        Ghost(done): Ghost<Seq<Seq<char>>>,
        Ghost(fuel): Ghost<nat>,
    ) -> (new_done: Ghost<Seq<Seq<char>>>)
        requires
            self.search_ok(old(visited)@, old(in_stack)@, views(old(stack)@), done, old(cycles)@),
            !old(visited)@.contains(node@),
            old(stack)@.len() > 0 ==> imports_from(self.imports(), views(old(stack)@).last(), node@),
            self.importers().finite(),
            fuel > self.importers().len() - old(visited)@.intersect(self.importers()).len(),
        ensures
            ({
                let r = dfs_visit(self.imports(), node@, old(visited)@, views(old(stack)@), fuel);
                &&& final(visited)@ == r.0
                &&& cycle_paths(final(cycles)@) == cycle_paths(old(cycles)@) + r.1
            }),
            self.search_ok(final(visited)@, final(in_stack)@, views(final(stack)@), new_done@, final(cycles)@),
            final(in_stack)@ == old(in_stack)@,
            views(final(stack)@) == views(old(stack)@),
            old(visited)@.insert(node@).subset_of(final(visited)@),
            new_done@.len() >= done.len(),
            new_done@.take(done.len() as int) == done,
            new_done@.contains(node@),
            final(cycles)@.len() >= old(cycles)@.len(),
        decreases
            self.importers().len() - old(visited)@.intersect(self.importers()).len(),
            (if self.importers().contains(node@) { 1int } else { 0int }),
    {
        let ghost g = self.imports();
        let ghost v0 = visited@;
        let ghost st0 = views(stack@);
        let ghost c0 = cycles@;
        let ghost target = dfs_visit(g, node@, v0, st0, fuel);
        proof {
            vstd::set_lib::lemma_len_subset(v0.intersect(self.importers()), self.importers());
            assert(fuel >= 1);
            assert(g.dom() == self.importers());
        }
        proof {
            if self.importers().contains(node@) {
                lemma_visit_counts(v0, self.importers(), node@);
            } else {
                vstd::set_lib::lemma_len_subset(v0.intersect(self.importers()), self.importers());
            }
        }
        visited.insert(string_of(node));
        in_stack.insert(string_of(node));
        stack.push(string_of(node));
        assert(views(stack@) =~= st0.push(node@));
        let ghost mut d = done;
        proof {
            assert(st0.push(node@).no_duplicates()) by {
                assert(!st0.contains(node@)) by {
                    if st0.contains(node@) {
                        assert(st0.to_set().contains(node@));
                    }
                }
            }
            st0.lemma_push_to_set_commute(node@);
            assert forall|i: int| 0 < i < views(stack@).len() implies imports_from(g, views(stack@)[i - 1], #[trigger] views(stack@)[i]) by {
                if i < st0.len() {
                    assert(views(stack@)[i - 1] == st0[i - 1] && views(stack@)[i] == st0[i]);
                }
            }
        }
        proof {
            assert(!done.to_set().contains(node@)) by {
                if done.to_set().contains(node@) {
                    assert(v0.contains(node@));
                }
            }
            assert(visited@ =~= in_stack@ + d.to_set());
            assert(in_stack@.disjoint(d.to_set()));
            assert(views(stack@).to_set() =~= in_stack@);
            assert(self.search_ok(visited@, in_stack@, views(stack@), d, cycles@));
        }
        match self.dependencies.get(node) {
            Some(deps) => {
                let ghost targets = g[node@];
                assert(targets == edge_targets(deps@));
                let mut i: usize = 0;
                proof {
                    assert(g.contains_key(node@));
                    assert(visited@ == v0.insert(node@));
                    assert(target == dfs_deps(g, targets, 0, visited@, views(stack@), (fuel - 1) as nat));
                }
                while i < deps.len()
                    invariant
                        g == self.imports(),
                        targets == edge_targets(deps@),
                        g.contains_key(node@),
                        g[node@] == targets,
                        self.importers().contains(node@),
                        self.importers().finite(),
                        i <= deps@.len(),
                        self.search_ok(visited@, in_stack@, views(stack@), d, cycles@),
                        views(stack@) == st0.push(node@),
                        in_stack@ == old(in_stack)@.insert(node@),
                        v0.insert(node@).subset_of(visited@),
                        d.len() >= done.len(),
                        d.take(done.len() as int) == done,
                        cycles@.len() >= old(cycles)@.len(),
                        cycles@.len() == 0 ==> forall|j: int| 0 <= j < i ==> d.contains(#[trigger] targets[j]),
                        v0.intersect(self.importers()).len() + 1 <= visited@.intersect(self.importers()).len(),
                        ({
                            let r = dfs_deps(g, targets, i as nat, visited@, views(stack@), (fuel - 1) as nat);
                            &&& target.0 == r.0
                            &&& cycle_paths(c0) + target.1 == cycle_paths(cycles@) + r.1
                        }),
                    decreases deps.len() - i,
                {
                    let dep = &deps[i].module;
                    assert(targets[i as int] == dep@);
                    assert(g[node@].contains(dep@));
                    let ghost vb = visited@;
                    let ghost cb = cycles@;
                    let ghost stb = views(stack@);
                    let ghost here = dfs_deps(g, targets, i as nat, vb, stb, (fuel - 1) as nat);
                    let ghost next_i = (i + 1) as nat;
                    if !visited.contains(dep.as_str()) {
                        proof {
                            vstd::set_lib::lemma_len_subset(visited@.intersect(self.importers()), self.importers());
                            assert(views(stack@).last() == node@);
                        }
                        let ghost d_before = d;
                        proof {
                            vstd::set_lib::lemma_len_subset(visited@.intersect(self.importers()), self.importers());
                        }
                        let r = self.dfs_detect(dep.as_str(), visited, in_stack, stack, cycles, Ghost(d), Ghost((fuel - 1) as nat));
                        proof {
                            d = r@;
                            assert(d.take(done.len() as int) =~= d.take(d_before.len() as int).take(done.len() as int));
                            if cycles@.len() == 0 {
                                assert forall|j: int| 0 <= j < i + 1 implies d.contains(#[trigger] targets[j]) by {
                                    if j < i {
                                        let q = choose|q: int| 0 <= q < d_before.len() && d_before[q] == targets[j];
                                        assert(d.take(d_before.len() as int)[q] == targets[j]);
                                        assert(d[q] == targets[j]);
                                    }
                                }
                            }
                            lemma_visit_monotone(v0.insert(node@), visited@, self.importers());
                        }
                    } else if in_stack.contains(dep.as_str()) {
                        let ghost st = views(stack@);
                        assert(st.to_set().contains(dep@));
                        let mut pos: usize = 0;
                        while pos < stack.len()
                            invariant
                                pos <= stack@.len(),
                                st == views(stack@),
                                st.contains(dep@),
                                forall|q: int| 0 <= q < pos ==> st[q] != dep@,
                            decreases stack.len() - pos,
                        {
                            if crate::text::str_eq(stack[pos].as_str(), dep.as_str()) {
                                break;
                            }
                            pos = pos + 1;
                        }
                        proof {
                            if pos == stack@.len() {
                                let q = choose|q: int| 0 <= q < st.len() && st[q] == dep@;
                            }
                        }
                        assert(pos < stack@.len() && st[pos as int] == dep@);
                        let mut cycle: Vec<String> = Vec::new();
                        let mut q: usize = pos;
                        while q < stack.len()
                            invariant
                                pos <= q <= stack@.len(),
                                st == views(stack@),
                                views(cycle@) == st.subrange(pos as int, q as int),
                            decreases stack.len() - q,
                        {
                            let c = stack[q].clone();
                            let ghost before = cycle@;
                            cycle.push(c);
                            assert(views(cycle@) =~= views(before).push(c@));
                            assert(st.subrange(pos as int, q + 1) =~= st.subrange(pos as int, q as int).push(st[q as int]));
                            q = q + 1;
                        }
                        let ghost body = views(cycle@);
                        let dc = dep.clone();
                        let ghost before_push = cycle@;
                        cycle.push(dep.clone());
                        let ghost cv = views(cycle@);
                        proof {
                            assert(cv =~= body.push(dep@));
                            assert(body =~= st.subrange(pos as int, st.len() as int));
                            assert(st.last() == node@);
                            assert forall|k: int| 0 < k < cv.len() implies imports_from(g, cv[k - 1], #[trigger] cv[k]) by {
                                if k < body.len() {
                                    assert(cv[k - 1] == st[pos + k - 1] && cv[k] == st[pos + k]);
                                } else {
                                    assert(cv[k - 1] == st[st.len() - 1]);
                                    assert(cv[k] == dep@);
                                }
                            }
                            assert(is_import_cycle(g, cv));
                        }
                        let err = ImportResolutionError::new(
                            string_of(node),
                            dc,
                            deps[i].span,
                            ModuleError::CircularDependency(cycle),
                        );
                        let ghost cs0 = cycles@;
                        cycles.push(err);
                        proof {
                            let k = index_in(st, dep@);
                            assert(0 <= k < st.len() && st[k] == dep@);
                            assert(k == pos as int) by {
                                assert(st.no_duplicates());
                            }
                            assert(cv == stb.subrange(index_in(stb, dep@), stb.len() as int).push(dep@));
                            assert(cycle_paths(cycles@) =~= cycle_paths(cs0).push(cv));
                            assert(cycle_paths(cycles@) =~= cycle_paths(cb) + seq![cv]);
                        }
                        assert forall|k: int| 0 <= k < cycles@.len() implies ((#[trigger] cycles@[k]).error matches ModuleError::CircularDependency(c)
                            && is_import_cycle(g, views(c@))) by {
                            if k < cs0.len() {
                                assert(cycles@[k] == cs0[k]);
                            }
                        }
                    } else {
                        // visited and no longer in progress: finished
                        assert(d.to_set().contains(dep@));
                    }
                    proof {
                        let first = if !vb.contains(dep@) {
                            dfs_visit(g, dep@, vb, stb, (fuel - 1) as nat)
                        } else if stb.contains(dep@) {
                            (vb, seq![stb.subrange(index_in(stb, dep@), stb.len() as int).push(dep@)])
                        } else {
                            (vb, Seq::<Seq<Seq<char>>>::empty())
                        };
                        let rest = dfs_deps(g, targets, next_i, first.0, stb, (fuel - 1) as nat);
                        assert(here == (rest.0, first.1 + rest.1));
                        assert(visited@ == first.0);
                        assert(views(stack@) == stb);
                        assert(cycle_paths(cycles@) == cycle_paths(cb) + first.1);
                        assert(cycle_paths(c0) + target.1 == cycle_paths(cycles@) + rest.1) by {
                            assert(cycle_paths(cb) + here.1 =~= cycle_paths(cycles@) + rest.1);
                        }
                    }
                    i = i + 1;
                }
                proof {
                    assert(cycle_paths(c0) + target.1 =~= cycle_paths(cycles@));
                }
            },
            None => {
                proof {
                    assert(!g.contains_key(node@));
                    assert(cycle_paths(c0) + target.1 =~= cycle_paths(cycles@));
                }
            },
        }
        let ghost before_pop = stack@;
        assert(views(before_pop) == st0.push(node@));
        let _ = stack.pop();
        in_stack.remove(node);
        assert(stack@ =~= before_pop.drop_last());
        assert(views(stack@) =~= views(before_pop).drop_last());
        assert(views(stack@) =~= st0);
        proof {
            let d2 = d.push(node@);
            assert(!d.contains(node@)) by {
                if d.contains(node@) {
                    assert(d.to_set().contains(node@));
                }
            }
            assert(in_stack@ =~= old(in_stack)@) by {
                assert(!old(in_stack)@.contains(node@)) by {
                    if old(in_stack)@.contains(node@) {
                        assert(v0.contains(node@));
                    }
                }
            }
            d.lemma_push_to_set_commute(node@);
            assert(visited@ =~= in_stack@ + d2.to_set());
            if cycles@.len() == 0 {
                assert forall|i: int, v: Seq<char>| 0 <= i < d2.len() && #[trigger] imports_from(g, d2[i], v) implies d2.take(i).contains(v) by {
                    if i < d.len() {
                        assert(d2[i] == d[i]);
                        assert(d2.take(i) =~= d.take(i));
                    } else {
                        assert(d2.take(i) =~= d);
                        assert(d2[i] == node@);
                        assert(g[node@].contains(v));
                        let j = choose|j: int| 0 <= j < g[node@].len() && g[node@][j] == v;
                        assert(d.contains(g[node@][j]));
                    }
                }
            }
            assert(d2.take(done.len() as int) =~= d.take(done.len() as int));
            assert(d2[d.len() as int] == node@);
            d = d2;
        }
        Ghost(d)
    }

    /// Every import cycle found by a depth-first search over the importing
    /// modules in increasing name order, as an error at the import that
    /// closes it.
    #[verifier::rlimit(40)]
    fn detect_cycle_errors(&self) -> (r: Vec<ImportResolutionError>)
        ensures
            forall|k: int| 0 <= k < r@.len() ==> ((#[trigger] r@[k]).error matches ModuleError::CircularDependency(c)
                && is_import_cycle(self.imports(), views(c@))),
            r@.len() == 0 <==> !has_import_cycle(self.imports()),
            cycle_paths(r@) == found_cycles(self.imports()),
    {
        let ghost g = self.imports();
        let keys = self.dependencies.keys();
        let ghost roots = views(keys@);
        let ghost fuel = (g.dom().len() + 1) as nat;
        proof {
            vstd::seq_lib::seq_to_set_is_finite(views(keys@));
            assert(self.importers() == views(keys@).to_set());
            assert(g.dom() == self.importers());
            assert(sorted(sorted_listing(g.dom())) && sorted_listing(g.dom()).to_set() == g.dom());
            lemma_sorted_unique(roots, sorted_listing(g.dom()));
            assert(cycle_paths(Seq::<ImportResolutionError>::empty()) =~= Seq::<Seq<Seq<char>>>::empty());
            assert(found_cycles(g) =~= cycle_paths(Seq::<ImportResolutionError>::empty())
                + dfs_roots(g, roots, 0, Set::empty(), fuel).1);
        }
        let mut visited = EffectSet::new();
        let mut in_stack = EffectSet::new();
        let mut stack: Vec<String> = Vec::new();
        let mut cycles: Vec<ImportResolutionError> = Vec::new();
        let ghost mut done: Seq<Seq<char>> = Seq::empty();
        proof {
            assert(views(stack@) =~= Seq::<Seq<char>>::empty());
            assert(visited@ =~= in_stack@ + done.to_set());
            assert(views(stack@).to_set() =~= in_stack@);
        }
        let mut i: usize = 0;
        while i < keys.len()
            invariant
                g == self.imports(),
                self.importers().finite(),
                self.importers() == views(keys@).to_set(),
                i <= keys@.len(),
                self.search_ok(visited@, in_stack@, views(stack@), done, cycles@),
                views(stack@) == Seq::<Seq<char>>::empty(),
                in_stack@ == Set::<Seq<char>>::empty(),
                forall|j: int| 0 <= j < i ==> visited@.contains(#[trigger] views(keys@)[j]),
                roots == views(keys@),
                fuel == g.dom().len() + 1,
                g.dom() == self.importers(),
                found_cycles(g) == cycle_paths(cycles@) + dfs_roots(g, roots, i as nat, visited@, fuel).1,
            decreases keys.len() - i,
        {
            let ghost cb = cycles@;
            let ghost vb = visited@;
            if !visited.contains(keys[i].as_str()) {
                let ghost v_before = visited@;
                proof {
                    vstd::set_lib::lemma_len_subset(visited@.intersect(self.importers()), self.importers());
                }
                let r = self.dfs_detect(keys[i].as_str(), &mut visited, &mut in_stack, &mut stack, &mut cycles, Ghost(done), Ghost(fuel));
                proof {
                    done = r@;
                    let first = dfs_visit(g, roots[i as int], vb, Seq::empty(), fuel);
                    let rest = dfs_roots(g, roots, (i + 1) as nat, first.0, fuel);
                    assert(dfs_roots(g, roots, i as nat, vb, fuel) == (rest.0, first.1 + rest.1));
                    assert(views(Seq::<String>::empty()) =~= Seq::<Seq<char>>::empty());
                    assert(found_cycles(g) =~= cycle_paths(cycles@) + rest.1);
                }
                assert forall|j: int| 0 <= j < i + 1 implies visited@.contains(#[trigger] views(keys@)[j]) by {
                    if j < i {
                        assert(v_before.contains(views(keys@)[j]));
                    }
                }
            } else {
                assert(dfs_roots(g, roots, i as nat, vb, fuel) == dfs_roots(g, roots, (i + 1) as nat, vb, fuel));
            }
            i = i + 1;
        }
        proof {
            if cycles@.len() > 0 {
                let e = cycles@[0];
                assert(e.error matches ModuleError::CircularDependency(c) && is_import_cycle(g, views(c@)));
                if let ModuleError::CircularDependency(c) = e.error {
                    assert(is_import_cycle(g, views(c@)));
                }
            } else {
                assert forall|c: Seq<Seq<char>>| !#[trigger] is_import_cycle(g, c) by {
                    if is_import_cycle(g, c) {
                        assert forall|k: int| 0 <= k < c.len() - 1 implies done.contains(#[trigger] c[k]) by {
                            assert(imports_from(g, c[k], c[k + 1]));
                            assert(self.importers().contains(c[k]));
                            let j = choose|j: int| 0 <= j < keys@.len() && views(keys@)[j] == c[k];
                            assert(visited@.contains(views(keys@)[j]));
                            assert(done.to_set().contains(c[k]));
                        }
                        lemma_finish_order_acyclic(g, done, c);
                    }
                }
            }
        }
        cycles
    }

    /// Every import cycle, as a chain of module names that starts and ends
    /// at the same module; none exactly when the imports have no cycle.
    pub fn detect_cycles(&self) -> (r: Vec<Vec<String>>)
        ensures
            forall|k: int| 0 <= k < r@.len() ==> is_import_cycle(self.imports(), views((#[trigger] r@[k])@)),
            r@.len() == 0 <==> !has_import_cycle(self.imports()),
            path_views(r@) == found_cycles(self.imports()),
    {
        let errors = self.detect_cycle_errors();
        let mut out: Vec<Vec<String>> = Vec::new();
        let mut k: usize = 0;
        while k < errors.len()
            invariant
                k <= errors@.len(),
                out@.len() == k,
                forall|j: int| 0 <= j < errors@.len() ==> ((#[trigger] errors@[j]).error matches ModuleError::CircularDependency(c)
                    && is_import_cycle(self.imports(), views(c@))),
                forall|j: int| 0 <= j < k ==> is_import_cycle(self.imports(), views((#[trigger] out@[j])@)),
                path_views(out@) == cycle_paths(errors@).take(k as int),
            decreases errors.len() - k,
        {
            match &errors[k].error {
                ModuleError::CircularDependency(c) => {
                    let copy = crate::names::clone_names(c.as_slice());
                    let ghost o0 = out@;
                    out.push(copy);
                    assert(path_views(out@) =~= cycle_paths(errors@).take(k + 1)) by {
                        assert(path_views(o0) == cycle_paths(errors@).take(k as int));
                        assert forall|j: int| 0 <= j < k + 1 implies #[trigger] path_views(out@)[j]
                            == cycle_paths(errors@).take(k + 1)[j] by {
                            if j < k {
                                assert(out@[j] == o0[j]);
                                assert(path_views(o0)[j] == cycle_paths(errors@).take(k as int)[j]);
                            }
                        }
                    }
                    assert forall|j: int| 0 <= j < k + 1 implies is_import_cycle(self.imports(), views((#[trigger] out@[j])@)) by {
                        if j < k {
                            assert(out@[j] == o0[j]);
                        }
                    }
                },
                _ => {
                    assert(false);
                },
            }
            k = k + 1;
        }
        assert(cycle_paths(errors@).take(errors@.len() as int) =~= cycle_paths(errors@));
        out
    }

    /// All registered module names, in increasing order.
    pub fn all_modules(&self) -> (r: Vec<String>)
        ensures
            sorted(views(r@)),
            views(r@).to_set() == self.modules_view().dom(),
    {
        self.modules.keys()
    }

    /// All registered module interfaces, in increasing name order.
    pub fn all_interfaces(&self) -> (r: Vec<&ModuleInterface>)
        ensures
            r@.len() == self.modules_view().len(),
            r@.len() == sorted_listing(self.modules_view().dom()).len(),
            forall|i: int|
                0 <= i < r@.len() ==> *#[trigger] r@[i] == self.modules_view()[sorted_listing(
                    self.modules_view().dom(),
                )[i]],
    {
        let n = self.modules.len();
        let ghost ks = self.modules.key_seq();
        let mut r: Vec<&ModuleInterface> = Vec::new();
        let mut i: usize = 0;
        while i < n
            invariant
                n == ks.len(),
                ks == self.modules.key_seq(),
                i <= n,
                r@.len() == i,
                forall|j: int| 0 <= j < i ==> *#[trigger] r@[j] == self.modules_view()[ks[j]],
            decreases n - i,
        {
            let m = self.modules.value_at(i);
            r.push(m);
            i = i + 1;
        }
        proof {
            assert(sorted(sorted_listing(self.modules_view().dom())) && sorted_listing(
                self.modules_view().dom(),
            ).to_set() == self.modules_view().dom());
            lemma_sorted_unique(ks, sorted_listing(self.modules_view().dom()));
        }
        r
    }

    /// Register the standard library prelude with the console builtins.
    pub fn register_prelude(&mut self)
        ensures
            registers_prelude(*old(self), *final(self), true),
    {
        self.register_prelude_with_options(PreludeOptions { include_console: true });
    }

    /// Register the prelude made of the built-in functions, with or without
    /// the console ones.
    pub fn register_prelude_with_options(&mut self, options: PreludeOptions)
        ensures
            registers_prelude(*old(self), *final(self), options.include_console),
    {
        let path: Vec<String> = vec![string_of("Std"), string_of("Prelude")];
        proof {
            reveal_strlit("Std");
            reveal_strlit("Prelude");
            reveal_strlit("Std.Prelude");
            reveal_strlit(".");
            reveal_with_fuel(join_with, 3);
            assert(views(path@) =~= seq!["Std"@, "Prelude"@]);
            assert(join_with(views(path@), "."@) =~= "Std.Prelude"@) by {
                assert(views(path@).drop_last() =~= seq!["Std"@]);
            }
        }
        let base = ModuleInterface::new(path);
        assert(base.functions@.dom() =~= Set::<Seq<char>>::empty());
        assert(signature_views(base.functions@) =~= Map::empty());
        let ghost b = base;
        self.register_prelude_from(base, options);
        proof {
            let m = self.modules_view()["Std.Prelude"@];
            assert(b.qualified() == "Std.Prelude"@);
            assert(Set::<Seq<char>>::empty() + builtin_functions(options.include_console) =~= builtin_functions(
                options.include_console,
            ));
            assert(m.types@.dom() =~= set!["List"@]);
            assert(cap_views(b.function_caps@) =~= Map::empty());
            assert(m.export_set() =~= builtin_functions(options.include_console).insert("List"@));
        }
    }

    /// Register `base` (the interface of the standard library's prelude
    /// source) with the built-in functions added, under its own name: `List`
    /// is made a type if it is not one, the console builtins (when asked
    /// for) require the `Console` effect.
    pub fn register_prelude_from(&mut self, base: ModuleInterface, options: PreludeOptions)
        ensures
            final(self).modules_view().dom() == old(self).modules_view().dom().insert(base.qualified()),
            forall|k: Seq<char>|
                k != base.qualified() && #[trigger] old(self).modules_view().contains_key(k)
                    ==> final(self).modules_view()[k] == old(self).modules_view()[k],
            ({
                let m = final(self).modules_view()[base.qualified()];
                &&& m.path == base.path
                &&& m.functions@.dom() == base.functions@.dom() + builtin_functions(options.include_console)
                &&& signature_views(m.functions@) == with_builtins(
                    signature_views(base.functions@),
                    options.include_console,
                )
                &&& cap_views(m.function_caps@) == if options.include_console {
                    cap_views(base.function_caps@).insert("print"@, set!["Console"@]).insert(
                        "println"@,
                        set!["Console"@],
                    ).insert("read_line"@, set!["Console"@])
                } else {
                    cap_views(base.function_caps@)
                }
                &&& m.types@.dom() == base.types@.dom().insert("List"@)
                &&& forall|k: Seq<char>| #[trigger] base.types@.contains_key(k) ==> m.types@[k] == base.types@[k]
                &&& !base.types@.contains_key("List"@) ==> m.types@["List"@]@.len() == 0
                &&& m.function_errors == base.function_errors
                &&& m.function_type_params == base.function_type_params
                &&& m.function_where_bounds == base.function_where_bounds
                &&& m.structs == base.structs
                &&& m.struct_type_params == base.struct_type_params
                &&& m.capabilities == base.capabilities
                &&& m.capability_methods == base.capability_methods
                &&& m.handlers == base.handlers
                &&& m.visibilities == base.visibilities
            }),
            final(self).imports() == old(self).imports(),
    {
        let mut prelude = base;
        if !prelude.types.contains_key("List") {
            prelude.types.insert(string_of("List"), Vec::new());
        }
        assert(prelude.types@.dom() =~= base.types@.dom().insert("List"@));
        let ghost dom0 = prelude.functions@.dom();
        if options.include_console {
            let f = &mut prelude.functions;
            add_builtin(f, "print", one(Ty::Str), Ty::Unit);
            add_builtin(f, "println", one(Ty::Str), Ty::Unit);
            add_builtin(f, "read_line", Vec::new(), Ty::Str);
            // The console builtins require the Console effect, so callers
            // must declare `uses [Console]`.
            let mut console = EffectSet::new();
            console.insert(string_of("Console"));
            assert(console@ =~= set!["Console"@]);
            let ghost caps0 = prelude.function_caps@;
            prelude.function_caps.insert(string_of("print"), console.clone());
            prelude.function_caps.insert(string_of("println"), console.clone());
            prelude.function_caps.insert(string_of("read_line"), console);
            assert(cap_views(prelude.function_caps@) =~= cap_views(caps0).insert("print"@, set!["Console"@]).insert(
                "println"@,
                set!["Console"@],
            ).insert("read_line"@, set!["Console"@]));
        }
        let ghost sig1 = signature_views(prelude.functions@);
        assert(sig1 == if options.include_console {
            with_console_builtins(signature_views(base.functions@))
        } else {
            signature_views(base.functions@)
        });
        let f = &mut prelude.functions;
        add_builtin(f, "string_length", one(Ty::Str), Ty::I64);
        add_builtin(f, "split", two(Ty::Str, Ty::Str), list_of(Ty::Str));
        add_builtin(f, "trim", one(Ty::Str), Ty::Str);
        add_builtin(f, "to_upper", one(Ty::Str), Ty::Str);
        add_builtin(f, "to_lower", one(Ty::Str), Ty::Str);
        add_builtin(f, "starts_with", two(Ty::Str, Ty::Str), Ty::Bool);
        add_builtin(f, "ends_with", two(Ty::Str, Ty::Str), Ty::Bool);
        add_builtin(f, "char_at", two(Ty::Str, Ty::I64), option_of(Ty::Str));
        add_builtin(f, "char_to_int", one(Ty::Str), Ty::I64);
        add_builtin(f, "int_to_char", one(Ty::I64), Ty::Str);
        add_builtin(f, "substring", three(Ty::Str, Ty::I64, Ty::I64), Ty::Str);
        add_builtin(f, "replace", three(Ty::Str, Ty::Str, Ty::Str), Ty::Str);
        add_builtin(f, "to_string", one(Ty::Var(0)), Ty::Str);
        add_builtin(f, "string_index_of", two(Ty::Str, Ty::Str), Ty::I64);
        add_builtin(f, "abs", one(Ty::I64), Ty::I64);
        add_builtin(f, "min", two(Ty::I64, Ty::I64), Ty::I64);
        add_builtin(f, "max", two(Ty::I64, Ty::I64), Ty::I64);
        add_builtin(f, "len", one(Ty::Var(0)), Ty::I64);
        add_builtin(f, "range", two(Ty::I64, Ty::I64), list_of(Ty::I64));
        add_builtin(f, "reverse", one(list_of(Ty::Var(0))), list_of(Ty::Var(0)));
        add_builtin(
            f,
            "map",
            two(list_of(Ty::Var(0)), pure_fn(one(Ty::Var(0)), Ty::Var(1))),
            list_of(Ty::Var(1)),
        );
        add_builtin(
            f,
            "filter",
            two(list_of(Ty::Var(0)), pure_fn(one(Ty::Var(0)), Ty::Bool)),
            list_of(Ty::Var(0)),
        );
        add_builtin(
            f,
            "fold",
            three(list_of(Ty::Var(0)), Ty::Var(1), pure_fn(two(Ty::Var(1), Ty::Var(0)), Ty::Var(1))),
            Ty::Var(1),
        );
        add_builtin(f, "each", two(list_of(Ty::Var(0)), pure_fn(one(Ty::Var(0)), Ty::Unit)), Ty::Unit);
        add_builtin(f, "append", two(list_of(Ty::Var(0)), Ty::Var(0)), list_of(Ty::Var(0)));
        add_builtin(f, "prepend", two(Ty::Var(0), list_of(Ty::Var(0))), list_of(Ty::Var(0)));
        add_builtin(f, "head", one(list_of(Ty::Var(0))), option_of(Ty::Var(0)));
        add_builtin(f, "tail", one(list_of(Ty::Var(0))), option_of(list_of(Ty::Var(0))));
        add_builtin(f, "contains", two(list_of(Ty::Var(0)), Ty::Var(0)), Ty::Bool);
        add_builtin(f, "concat", two(list_of(Ty::Var(0)), list_of(Ty::Var(0))), list_of(Ty::Var(0)));
        assert(signature_views(prelude.functions@) == with_common_builtins(sig1));
        assert(prelude.functions@.dom() =~= base.functions@.dom() + builtin_functions(options.include_console));
        self.register(prelude);
    }
}

/// Records a builtin's signature, replacing any entry of its name.
fn add_builtin(f: &mut NameMap<(Vec<Ty>, Ty)>, name: &str, params: Vec<Ty>, ret: Ty)
    ensures
        signature_views(final(f)@) == signature_views(old(f)@).insert(
            name@,
            (tys_view(params@), ty_view(ret)),
        ),
        final(f)@.dom() == old(f)@.dom().insert(name@),
{
    let ghost p = params@;
    let ghost r = ret;
    f.insert(string_of(name), (params, ret));
    assert(signature_views(f@) =~= signature_views(old(f)@).insert(name@, (tys_view(p), ty_view(r))));
}

/// The list of one type.
fn one(a: Ty) -> (r: Vec<Ty>)
    ensures
        tys_view(r@) == seq![ty_view(a)],
{
    let r = vec![a];
    proof { lemma_tys_view(r@); }
    assert(tys_view(r@) =~= seq![ty_view(a)]);
    r
}

/// The list of two types.
fn two(a: Ty, b: Ty) -> (r: Vec<Ty>)
    ensures
        tys_view(r@) == seq![ty_view(a), ty_view(b)],
{
    let r = vec![a, b];
    proof { lemma_tys_view(r@); }
    assert(tys_view(r@) =~= seq![ty_view(a), ty_view(b)]);
    r
}

/// The list of three types.
fn three(a: Ty, b: Ty, c: Ty) -> (r: Vec<Ty>)
    ensures
        tys_view(r@) == seq![ty_view(a), ty_view(b), ty_view(c)],
{
    let r = vec![a, b, c];
    proof { lemma_tys_view(r@); }
    assert(tys_view(r@) =~= seq![ty_view(a), ty_view(b), ty_view(c)]);
    r
}

/// `List[t]`.
fn list_of(t: Ty) -> (r: Ty)
    ensures
        ty_view(r) == list_v(ty_view(t)),
{
    Ty::App(string_of("List"), one(t))
}

/// `Option[t]`.
fn option_of(t: Ty) -> (r: Ty)
    ensures
        ty_view(r) == option_v(ty_view(t)),
{
    Ty::App(string_of("Option"), one(t))
}

/// A function type with no effects.
fn pure_fn(params: Vec<Ty>, ret: Ty) -> (r: Ty)
    ensures
        ty_view(r) == pure_fn_v(tys_view(params@), ty_view(ret)),
{
    Ty::Fn(params, Box::new(ret), EffectSet::new())
}

/// Adds every name to the set.
fn add_all(set: &mut EffectSet, names: &[String])
    ensures
        final(set)@ == old(set)@ + views(names@).to_set(),
{
    let mut i: usize = 0;
    while i < names.len()
        invariant
            i <= names@.len(),
            set@ == old(set)@ + views(names@).take(i as int).to_set(),
        decreases names.len() - i,
    {
        set.insert(names[i].clone());
        proof {
            views(names@).take(i as int).lemma_push_to_set_commute(names@[i as int]@);
            assert(views(names@).take(i + 1) =~= views(names@).take(i as int).push(names@[i as int]@));
        }
        assert(set@ =~= old(set)@ + views(names@).take(i + 1).to_set());
        i = i + 1;
    }
    assert(views(names@).take(names@.len() as int) =~= views(names@));
}

} // verus!
