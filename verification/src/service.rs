//! The lint service: the options a run is configured with, the pluggable
//! file system, and the service wrapper around the runtime.

use vstd::prelude::*;
use crate::host::{spec_host_wf, Host};
use crate::linter::Linter;
use crate::runtime::{graph_post, run_post, FileWrite, Runtime, RunOutcome};

verus! {

/// The environment a lint service runs in: the working directory, an
/// optional TypeScript project file, and whether cross-module analysis is
/// enabled.
#[derive(Debug, Clone)]
pub struct LintServiceOptions {
    pub cwd: String,
    pub tsconfig: Option<String>,
    pub cross_module: bool,
}

impl LintServiceOptions {
    /// Options for the given working directory, with cross-module analysis
    /// off and no project file.
    pub fn new(cwd: String) -> (o: LintServiceOptions)
        ensures
            o.cwd == cwd,
            o.tsconfig is None,
            !o.cross_module,
    {
        LintServiceOptions { cwd, tsconfig: None, cross_module: false }
    }

    /// Names the TypeScript project file the resolver reads path aliases
    /// and project references from.  A relative path is resolved against
    /// the working directory before it is stored; whether the file exists
    /// is for the caller to check before linting starts.
    pub fn with_tsconfig(self, tsconfig: String) -> (o: LintServiceOptions)
        ensures
            o.cwd == self.cwd,
            o.tsconfig is Some,
            o.tsconfig->0@ == crate::textscan::spec_joined_path(self.cwd@, tsconfig@),
            o.cross_module == self.cross_module,
    {
        let joined = crate::textscan::join_path(&self.cwd, &tsconfig);
        let mut o = self;
        o.tsconfig = Some(joined);
        o
    }

    /// Switches cross-module analysis on or off.
    pub fn with_cross_module(self, cross_module: bool) -> (o: LintServiceOptions)
        ensures
            o.cwd == self.cwd,
            o.tsconfig == self.tsconfig,
            o.cross_module == cross_module,
    {
        let mut o = self;
        o.cross_module = cross_module;
        o
    }

    /// The working directory.
    pub fn cwd(&self) -> (c: &String)
        ensures
            c == self.cwd,
    {
        &self.cwd
    }

    /// Whether cross-module analysis is enabled.
    pub fn cross_module(&self) -> (c: bool)
        ensures
            c == self.cross_module,
    {
        self.cross_module
    }

    /// The TypeScript project file, if one was named.
    pub fn tsconfig(&self) -> (t: &Option<String>)
        ensures
            t == self.tsconfig,
    {
        &self.tsconfig
    }
}

/// The file system a runtime works against.  The service reads each file
/// once into arena-owned storage and writes fixed contents back; tests and
/// language hosts plug in their own implementation.
pub trait RuntimeFileSystem {
    /// Reads a file's text, or the reason it cannot be read.
    fn read_to_arena_str(&self, path: &String) -> Result<String, String>;

    /// Writes fixed contents back to a file.
    fn write_file(&mut self, path: &String, content: &String) -> Result<(), String>;
}

/// An in-memory file system: a table of paths and contents, recording
/// every write.
#[derive(Debug)]
pub struct MemoryFileSystem {
    /// The readable files and their contents.
    pub files: Vec<(String, String)>,
    /// Every write performed, in order.
    pub writes: Vec<(String, String)>,
}

impl MemoryFileSystem {
    /// An in-memory file system holding the given files.
    pub fn new(files: Vec<(String, String)>) -> (fs: MemoryFileSystem)
        ensures
            fs.files == files,
            fs.writes@.len() == 0,
    {
        MemoryFileSystem { files, writes: Vec::new() }
    }
}

impl RuntimeFileSystem for MemoryFileSystem {
    fn read_to_arena_str(&self, path: &String) -> Result<String, String> {
        let mut k: usize = 0;
        while k < self.files.len()
            invariant
                k <= self.files@.len(),
            decreases self.files@.len() - k,
        {
            if self.files[k].0 == *path {
                return Ok(self.files[k].1.clone());
            }
            k = k + 1;
        }
        let mut message = "Failed to open file ".to_owned();
        message.append(path.as_str());
        Err(message)
    }

    fn write_file(&mut self, path: &String, content: &String) -> Result<(), String> {
        self.writes.push((path.clone(), content.clone()));
        Ok(())
    }
}

/// The lint service: the runtime behind one callable surface.
pub struct LintService {
    pub runtime: Runtime,
}

impl LintService {
    /// Builds the service: the worker count is fixed here for the whole
    /// run, and the arena pool is sized for it.
    pub fn new(linter: Linter, options: LintServiceOptions, thread_count: usize) -> (s:
        LintService)
        requires
            1 <= thread_count <= 0xFFFF,
        ensures
            s.runtime.wf(),
            s.runtime.linter == linter,
            s.runtime.cross_module == options.cross_module,
            s.runtime.paths@.len() == 0,
            s.runtime.allocator_pool.created() == 0,
    {
        let cross = options.cross_module;
        let tsconfig = match &options.tsconfig {
            Option::Some(t) => Some(t.clone()),
            Option::None => None,
        };
        LintService { runtime: Runtime::new(linter, options.cwd, cross, tsconfig, thread_count) }
    }

    /// Sets the entry paths, deduplicated in first-occurrence order.
    pub fn with_paths(&mut self, paths: Vec<String>)
        requires
            old(self).runtime.wf(),
        ensures
            final(self).runtime.wf(),
            forall|p: Seq<char>| #[trigger]
                crate::runtime::in_paths(final(self).runtime.paths@, p)
                    <==> crate::runtime::in_paths(paths@, p),
            final(self).runtime.linter == old(self).runtime.linter,
            final(self).runtime.cross_module == old(self).runtime.cross_module,
            final(self).runtime.allocator_pool == old(self).runtime.allocator_pool,
    {
        self.runtime.with_paths(paths);
    }

    /// Runs the pipeline over the world the host describes.
    pub fn run(&mut self, host: &Host) -> (o: RunOutcome)
        requires
            spec_host_wf(*host),
            old(self).runtime.wf(),
            old(self).runtime.allocator_pool.next_id < u32::MAX,
        ensures
            final(self).runtime.wf(),
            run_post(
                *host,
                old(self).runtime.paths@,
                !old(self).runtime.linter.options.fix.is_none_spec(),
                o,
            ),
            old(self).runtime.cross_module ==> graph_post(
                *host,
                old(self).runtime.paths@,
                o.graph,
            ),
    {
        self.runtime.run(host)
    }
}

/// Performs a run's file rewrites through a file system, in order.  The
/// file-system trait carries no contract of its own, so nothing more than
/// the performing itself can be promised here; what each write holds is
/// pinned by the run's own postcondition.
pub fn apply_writes<F: RuntimeFileSystem>(fs: &mut F, writes: &Vec<FileWrite>)
{
    let mut k: usize = 0;
    while k < writes.len()
        decreases writes@.len() - k,
    {
        let _ = fs.write_file(&writes[k].path, &writes[k].content);
        k = k + 1;
    }
}

} // verus!
