//! State management for the build process, including variable maps, operation types,
//! and overall build state.
use vstd::prelude::*;

use crate::dockerignore::DockerIgnore;
use crate::text::opt_text;
use crate::textmap::TextMap;

verus! {

/// The variables of a `VarMap`, as two maps.
#[verifier::ext_equal]
pub struct Vars {
    pub args: Map<Seq<char>, Seq<char>>,
    pub env: Map<Seq<char>, Seq<char>>,
}

impl Vars {
    /// The value of a variable: the environment goes before the build arguments, and a
    /// variable that is in neither is empty.
    pub open spec fn lookup(self, key: Seq<char>) -> Seq<char> {
        if self.env.dom().contains(key) {
            self.env[key]
        } else if self.args.dom().contains(key) {
            self.args[key]
        } else {
            seq![]
        }
    }

    /// No variables at all.
    pub open spec fn none() -> Vars {
        Vars { args: Map::empty(), env: Map::empty() }
    }

    /// The variables with one build argument set.
    pub open spec fn with_arg(self, key: Seq<char>, value: Seq<char>) -> Vars {
        Vars { args: self.args.insert(key, value), env: self.env }
    }

    /// The variables with one environment variable set.
    pub open spec fn with_env(self, key: Seq<char>, value: Seq<char>) -> Vars {
        Vars { args: self.args, env: self.env.insert(key, value) }
    }
}

/// A variable map that combines build arguments and environment variables for use in
/// variable substitution during the build process.
#[derive(Debug)]
pub struct VarMap {
    /// Build arguments (ARG in the Dockerfile).
    pub args: TextMap,
    /// Environment variables (ENV in the Dockerfile).
    pub env: TextMap,
}

impl View for VarMap {
    type V = Vars;

    open spec fn view(&self) -> Vars {
        Vars { args: self.args@, env: self.env@ }
    }
}

impl Default for VarMap {
    fn default() -> (r: Self)
        ensures
            r@ == Vars::none(),
    {
        VarMap { args: TextMap::new(), env: TextMap::new() }
    }
}

impl VarMap {
    /// The value of a variable, or the empty text where it is not set. An environment
    /// variable hides a build argument of the same name.
    pub fn get(&self, key: &str) -> (r: &str)
        ensures
            r@ == self@.lookup(key@),
    {
        if let Some(v) = self.env.get(key) {
            v.as_str()
        } else if let Some(v) = self.args.get(key) {
            v.as_str()
        } else {
            proof {
                reveal_strlit("");
                assert(""@ =~= Seq::<char>::empty());
            }
            ""
        }
    }
}

/// The kinds of operation that a build is made of.
#[derive(Debug, Clone, Copy, PartialEq, Eq, Structural)]
pub enum Operation {
    Checkpoint,
    From,
    Arg,
    Env,
    Run,
    Workdir,
    Copy,
    Add,
    Label,
    User,
    Entrypoint,
    Cmd,
    Expose,
    Volume,
    StopSignal,
    HealthCheck,
}

impl Operation {
    /// Whether an operation starts a chunk of its own.
    pub open spec fn starts_chunk(self) -> bool {
        self is Checkpoint || self is From
    }

    /// Whether an operation can stand in one chunk with the operation before it: every one
    /// can but a checkpoint and the start of a stage.
    pub fn can_chunk(_lhs: Self, rhs: Self) -> (r: bool)
        ensures
            r == !rhs.starts_chunk(),
    {
        !matches!(rhs, Operation::Checkpoint | Operation::From)
    }
}

/// The keyword of an operation.
pub open spec fn op_name(op: Operation) -> Seq<char> {
    match op {
        Operation::Checkpoint => "CHECKPOINT"@,
        Operation::From => "FROM"@,
        Operation::Arg => "ARG"@,
        Operation::Env => "ENV"@,
        Operation::Run => "RUN"@,
        Operation::Workdir => "WORKDIR"@,
        Operation::Copy => "COPY"@,
        Operation::Add => "ADD"@,
        Operation::Label => "LABEL"@,
        Operation::User => "USER"@,
        Operation::Entrypoint => "ENTRYPOINT"@,
        Operation::Cmd => "CMD"@,
        Operation::Expose => "EXPOSE"@,
        Operation::Volume => "VOLUME"@,
        Operation::StopSignal => "STOPSIGNAL"@,
        Operation::HealthCheck => "HEALTHCHECK"@,
    }
}

/// The keyword of an operation.
pub fn operation_name(op: Operation) -> (r: &'static str)
    ensures
        r@ == op_name(op),
{
    match op {
        Operation::Checkpoint => "CHECKPOINT",
        Operation::From => "FROM",
        Operation::Arg => "ARG",
        Operation::Env => "ENV",
        Operation::Run => "RUN",
        Operation::Workdir => "WORKDIR",
        Operation::Copy => "COPY",
        Operation::Add => "ADD",
        Operation::Label => "LABEL",
        Operation::User => "USER",
        Operation::Entrypoint => "ENTRYPOINT",
        Operation::Cmd => "CMD",
        Operation::Expose => "EXPOSE",
        Operation::Volume => "VOLUME",
        Operation::StopSignal => "STOPSIGNAL",
        Operation::HealthCheck => "HEALTHCHECK",
    }
}

/// Work that is done beside the build.
#[derive(Debug)]
pub enum OutOfBandWork {
    /// Mark a cache entry as recently used, given its hash.
    LruMarkCache { hash: String },
    /// Push a cache entry to a remote registry, given its image and the cache hash.
    PushCache { buildah_id: String, hash: String },
}

/// The state of a build as texts and maps.
#[verifier::ext_equal]
pub struct BuildState {
    pub container: Option<Seq<char>>,
    pub global: Vars,
    pub stage: Vars,
    pub cur_as: Option<Seq<char>>,
    pub as_images: Map<Seq<char>, Seq<char>>,
    pub last_id: Seq<char>,
    pub context_dir: Seq<char>,
    pub no_cache: bool,
    pub cache_to: bool,
    pub cache_from: Option<Seq<char>>,
    pub format: Option<Seq<char>>,
    pub network: Option<Seq<char>>,
}

impl BuildState {
    /// The image that a name stands for: that of the stage of this name, or the name itself.
    pub open spec fn image_for(self, name: Seq<char>) -> Seq<char> {
        if self.as_images.dom().contains(name) {
            self.as_images[name]
        } else {
            name
        }
    }
}

/// The overall state of the build process: the variables, the context directory, the
/// images of the stages, and the options of the build.
#[derive(Debug)]
pub struct State {
    /// The matcher for the build context, used to determine which files should be included
    /// or excluded from the build context.
    pub ignore: DockerIgnore,
    /// The current container being built, if any.
    pub container: Option<String>,
    /// Global variable map.
    pub global: VarMap,
    /// Stage variable map.
    pub stage: VarMap,
    /// The current "AS" alias, if any.
    pub cur_as: Option<String>,
    /// A mapping from "AS" aliases to their corresponding image IDs, used for multi-stage
    /// builds.
    pub as_images: TextMap,
    /// The last used image, used for caching and referencing the current container.
    pub last_id: String,
    /// The build context directory, used for resolving file paths during the build process.
    pub context_dir: String,
    /// Whether to disable caching for this build.
    pub no_cache: bool,
    /// Whether to export the cache after the build.
    pub cache_to: bool,
    /// Whether to import the cache before the build, and if so, where to import it from.
    pub cache_from: Option<String>,
    /// The output format for the built image, if specified (e.g., "oci", "docker").
    pub format: Option<String>,
    /// The network mode for RUN instructions, if specified.
    pub network: Option<String>,
}

impl View for State {
    type V = BuildState;

    open spec fn view(&self) -> BuildState {
        BuildState {
            container: opt_text(self.container),
            global: self.global@,
            stage: self.stage@,
            cur_as: opt_text(self.cur_as),
            as_images: self.as_images@,
            last_id: self.last_id@,
            context_dir: self.context_dir@,
            no_cache: self.no_cache,
            cache_to: self.cache_to,
            cache_from: opt_text(self.cache_from),
            format: opt_text(self.format),
            network: opt_text(self.network),
        }
    }
}

impl State {
    /// The state of a build that has not done anything yet.
    pub fn new(
        ignore: DockerIgnore,
        context_dir: String,
        no_cache: bool,
        cache_to: bool,
        cache_from: Option<String>,
        format: Option<String>,
        network: Option<String>,
    ) -> (r: State)
        ensures
            r.ignore == ignore,
            r@ == (BuildState {
                container: None,
                global: Vars::none(),
                stage: Vars::none(),
                cur_as: None,
                as_images: Map::empty(),
                last_id: seq![],
                context_dir: context_dir@,
                no_cache,
                cache_to,
                cache_from: opt_text(cache_from),
                format: opt_text(format),
                network: opt_text(network),
            }),
    {
        let r = State {
            ignore,
            container: None,
            global: VarMap::default(),
            stage: VarMap::default(),
            cur_as: None,
            as_images: TextMap::new(),
            last_id: String::new(),
            context_dir,
            no_cache,
            cache_to,
            cache_from,
            format,
            network,
        };
        proof {
            assert(r@.last_id =~= seq![]);
        }
        r
    }

    /// The image that a name stands for: that of the stage of this name, or the name itself.
    pub(crate) fn image<'a>(&'a self, name: &'a str) -> (r: &'a str)
        ensures
            r@ == self@.image_for(name@),
    {
        match self.as_images.get(name) {
            Some(image) => image.as_str(),
            None => name,
        }
    }
}

/// A variable has the value that it was set to last: an environment variable has it whatever the
/// build arguments are, and a build argument has it where no environment variable hides it. To
/// set one variable leaves every other one as it is, and a variable that was never set is empty.
pub proof fn law_lookup(vars: Vars, key: Seq<char>, value: Seq<char>, other: Seq<char>)
    requires
        other != key,
    ensures
        vars.with_env(key, value).lookup(key) == value,
        vars.with_env(key, value).lookup(other) == vars.lookup(other),
        !vars.env.dom().contains(key) ==> vars.with_arg(key, value).lookup(key) == value,
        vars.env.dom().contains(key) ==> vars.with_arg(key, value).lookup(key) == vars.lookup(key),
        vars.with_arg(key, value).lookup(other) == vars.lookup(other),
        Vars::none().lookup(key) == Seq::<char>::empty(),
        Vars::none().with_arg(other, value).with_env(other, key).lookup(other) == key,
{
}

/// A name stands for the image of the stage of that name where there is one, and for itself
/// otherwise.
pub proof fn law_stage_names_go_first(s: BuildState, name: Seq<char>, image: Seq<char>)
    ensures
        (BuildState { as_images: s.as_images.insert(name, image), ..s }).image_for(name) == image,
        (BuildState { as_images: s.as_images.remove(name), ..s }).image_for(name) == name,
{
}

/// A chunk starts at FROM and at a checkpoint, and nowhere else.
pub proof fn law_chunk_starts(op: Operation)
    ensures
        Operation::From.starts_chunk(),
        Operation::Checkpoint.starts_chunk(),
        op != Operation::From && op != Operation::Checkpoint ==> !op.starts_chunk(),
{
}

} // verus!
