//! The plugin layer's requests and responses, and the resolver interface.
//!
//! Paths travel as their text.
use vstd::prelude::*;

verus! {

/// Resolves an import specifier seen in a file to the file it names.
pub trait Resolver {
    fn resolve(&self, from_path: &str, specifier: &str) -> Option<String>;
}

/// The resolver built into the host; it resolves nothing, and so leaves every
/// specifier to the resolver plugins.
#[derive(Clone, Copy, Debug)]
pub struct DefaultResolver {}

impl DefaultResolver {
    pub fn new() -> (r: Self) {
        DefaultResolver {  }
    }
}

impl Resolver for DefaultResolver {
    fn resolve(&self, from_path: &str, specifier: &str) -> (r: Option<String>)
        ensures
            r is None,
    {
        None
    }
}

/// Asks every worker to load the resolver plugin at `specifier`.
#[derive(Clone, Debug)]
pub struct LoadResolverRequest {
    pub specifier: String,
}

/// Asks one worker to run the resolver plugin loaded as `resolver_key`.
#[derive(Clone, Debug)]
pub struct RunResolverRequest {
    pub resolver_key: String,
    pub from_path: String,
    pub specifier: String,
}

/// What a resolver plugin answered.
#[derive(Clone, Debug)]
pub struct RunResolverResponse {
    pub file_path: String,
}

/// A request of the plugin layer.
#[derive(Clone, Debug)]
pub enum PluginRequest {
    LoadResolver(LoadResolverRequest),
    RunResolver(RunResolverRequest),
}

/// A response of the plugin layer.
#[derive(Clone, Debug)]
pub enum PluginResponse {
    LoadResolver,
    RunResolver(RunResolverResponse),
}

/// The action name that a request travels under.
pub open spec fn action_of(r: PluginRequest) -> Seq<char> {
    match r {
        PluginRequest::LoadResolver(_) => "load_resolver"@,
        PluginRequest::RunResolver(_) => "run_resolver"@,
    }
}

impl PluginRequest {
    /// The action name that the request travels under.
    pub fn action(&self) -> (r: &'static str)
        ensures
            r@ == action_of(*self),
    {
        match self {
            PluginRequest::LoadResolver(_) => "load_resolver",
            PluginRequest::RunResolver(_) => "run_resolver",
        }
    }

    /// Whether the request goes to every worker (loading a plugin) rather
    /// than to one (running it).
    pub fn is_broadcast(&self) -> (r: bool)
        ensures
            r == (*self is LoadResolver),
    {
        match self {
            PluginRequest::LoadResolver(_) => true,
            PluginRequest::RunResolver(_) => false,
        }
    }
}

} // verus!
