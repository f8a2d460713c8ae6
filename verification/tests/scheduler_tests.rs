// The arena pool, the plugin toggles, the text scans, and the scheduler
// scenarios: waves over a dependency chain, and a large batch of
// independent files.

use oxlint::cli::{EnablePlugins, OverrideToggle};
use oxlint::host::{Diagnostic, Host, HostFile, HostImport, HostSection};
use oxlint::linter::{ConfigStore, Linter};
use oxlint::options::{FixKind, LintOptions};
use oxlint::plugins::{BuiltinLintPlugins, LintPlugins};
use oxlint::pool::{AllocatorPool, FixedSizeAllocatorMetadata, free_fixed_size_allocator};
use oxlint::runtime::{FileWrite, Runtime};
use oxlint::service::{apply_writes, MemoryFileSystem};
use oxlint::textscan::has_arrow_function;

fn plain_section(diags: usize) -> HostSection {
    let mut v = Vec::new();
    let mut i = 0;
    while i < diags {
        v.push(Diagnostic { message: format!("diagnostic {}", i), severe: false });
        i += 1;
    }
    HostSection { imports: Vec::new(), parse_errors: Vec::new(), diagnostics: v, edit: None }
}

fn linter() -> Linter {
    Linter::new(LintOptions::new(), ConfigStore { rule_count: 1, has_nested: false }, None)
}

#[test]
fn test_override_default() {
    let mut plugins = LintPlugins::default();
    let enable = EnablePlugins::default();

    enable.apply_overrides(&mut plugins);
    assert_eq!(plugins, LintPlugins::default());
}

#[test]
fn lint_test_overrides() {
    let mut plugins = LintPlugins::default();
    let enable = EnablePlugins {
        react_plugin: OverrideToggle::Enable,
        unicorn_plugin: OverrideToggle::Disable,
        ..EnablePlugins::default()
    };
    let expected = BuiltinLintPlugins { react: true, unicorn: false, ..BuiltinLintPlugins::default() };

    enable.apply_overrides(&mut plugins);
    assert_eq!(plugins, LintPlugins::new(expected));
}

#[test]
fn test_override_vitest() {
    let mut plugins = LintPlugins::default();
    let enable =
        EnablePlugins { vitest_plugin: OverrideToggle::Enable, ..EnablePlugins::default() };
    let expected = LintPlugins::new(BuiltinLintPlugins {
        vitest: true,
        jest: true,
        ..BuiltinLintPlugins::default()
    });

    enable.apply_overrides(&mut plugins);
    assert_eq!(plugins, expected);
}

#[test]
fn test_has_arrow_function() {
    let code_with_arrow = "const fn = () => {}";
    let code_without_arrow = "function fn() {}";

    assert!(has_arrow_function(code_with_arrow));
    assert!(!has_arrow_function(code_without_arrow));
}

#[test]
fn pool_reuses_idle_arenas() {
    // sequential non-overlapping checkouts create one backing allocation
    let mut pool = AllocatorPool::new(4);
    let g1 = pool.get();
    let first_id = g1.allocator.meta.id;
    pool.add(g1);
    let g2 = pool.get();
    assert_eq!(g2.allocator.meta.id, first_id);
    assert_eq!(g2.allocator.allocator.cursor, 0);
    pool.add(g2);
    assert_eq!(pool.created_count(), 1);
    assert_eq!(pool.idle_count(), 1);
}

#[test]
fn pool_never_double_issues() {
    // overlapping checkouts hold distinct arena identities
    let mut pool = AllocatorPool::new(4);
    let g1 = pool.get();
    let g2 = pool.get();
    let g3 = pool.get();
    assert_ne!(g1.allocator.meta.id, g2.allocator.meta.id);
    assert_ne!(g1.allocator.meta.id, g3.allocator.meta.id);
    assert_ne!(g2.allocator.meta.id, g3.allocator.meta.id);
    pool.add(g2);
    let g4 = pool.get();
    assert_ne!(g4.allocator.meta.id, g1.allocator.meta.id);
    assert_ne!(g4.allocator.meta.id, g3.allocator.meta.id);
    pool.add(g1);
    pool.add(g3);
    pool.add(g4);
    // three checkouts were outstanding at once; three arenas exist
    assert_eq!(pool.created_count(), 3);
}

#[test]
fn pool_arena_cursor_resets() {
    let mut pool = AllocatorPool::new(1);
    let mut g = pool.get();
    let offset = g.allocator.allocator.allocate(1024);
    assert_eq!(offset, Some(0));
    assert_eq!(g.allocator.allocator.cursor, 1024);
    pool.add(g);
    let g = pool.get();
    assert_eq!(g.allocator.allocator.cursor, 0);
    pool.add(g);
}

#[test]
fn dual_ownership_frees_exactly_once() {
    let mut meta =
        FixedSizeAllocatorMetadata { id: 0, alloc_addr: 0x8000_0000, is_double_owned: true };
    let freed_first = free_fixed_size_allocator(&mut meta);
    let freed_second = free_fixed_size_allocator(&mut meta);
    assert!(!freed_first);
    assert!(freed_second);

    let mut meta =
        FixedSizeAllocatorMetadata { id: 1, alloc_addr: 0x1_0000_0000, is_double_owned: false };
    assert!(free_fixed_size_allocator(&mut meta));
}

#[test]
fn wave_scenario_dependency_chain() {
    // three files: a.js imports b.js, b.js imports c.js, c.js imports
    // nothing; all three are entries, so three deliveries arrive, and the
    // graph holds three records with linked dependency tables
    let h = Host {
        files: vec![
            HostFile {
                path: "a.js".to_string(),
                readable: true,
                content: "import './b.js';\n".to_string(),
                sections: vec![HostSection {
                    imports: vec![HostImport { specifier: "./b.js".to_string(), resolved: Some(1) }],
                    parse_errors: Vec::new(),
                    diagnostics: vec![Diagnostic { message: "a".to_string(), severe: false }],
                    edit: None,
                }],
            },
            HostFile {
                path: "b.js".to_string(),
                readable: true,
                content: "import './c.js';\n".to_string(),
                sections: vec![HostSection {
                    imports: vec![HostImport { specifier: "./c.js".to_string(), resolved: Some(2) }],
                    parse_errors: Vec::new(),
                    diagnostics: vec![Diagnostic { message: "b".to_string(), severe: false }],
                    edit: None,
                }],
            },
            HostFile {
                path: "c.js".to_string(),
                readable: true,
                content: "1\n".to_string(),
                sections: vec![HostSection {
                    imports: Vec::new(),
                    parse_errors: Vec::new(),
                    diagnostics: vec![Diagnostic { message: "c".to_string(), severe: false }],
                    edit: None,
                }],
            },
        ],
    };
    let mut runtime = Runtime::new(linter(), String::new(), true, None, 1);
    runtime.with_paths(vec!["a.js".to_string(), "b.js".to_string(), "c.js".to_string()]);
    let o = runtime.run(&h);
    assert_eq!(o.deliveries.len(), 3);
    let mut paths: Vec<String> = o.deliveries.iter().map(|d| d.path.clone()).collect();
    paths.sort();
    assert_eq!(paths, vec!["a.js".to_string(), "b.js".to_string(), "c.js".to_string()]);
    assert_eq!(o.graph.len(), 3);
    let a = o.graph.get(&"a.js".to_string()).unwrap();
    assert_eq!(a.records.len(), 1);
    assert_eq!(a.records[0].requests, vec!["./b.js".to_string()]);
    assert_eq!(a.records[0].loaded.len(), 1);
    assert_eq!(a.records[0].loaded[0].0, "./b.js");
    let b_idx = a.records[0].loaded[0].1;
    assert_eq!(o.graph.entries[b_idx].path, "b.js");
    let b = o.graph.get(&"b.js".to_string()).unwrap();
    assert_eq!(b.records[0].loaded.len(), 1);
    let c_idx = b.records[0].loaded[0].1;
    assert_eq!(o.graph.entries[c_idx].path, "c.js");
    let c = o.graph.get(&"c.js".to_string()).unwrap();
    assert_eq!(c.records[0].loaded.len(), 0);
    // each file was read exactly once
    assert_eq!(o.reads.len(), 3);
}

#[test]
fn wave_scenario_many_independent_files() {
    // thousands of independent files in bounded waves: exactly one
    // delivery per file, no duplicates, no omissions
    let total = 5000;
    let mut files = Vec::new();
    let mut entries = Vec::new();
    let mut i = 0;
    while i < total {
        let path = format!("src/file_{:04}.js", i);
        entries.push(path.clone());
        files.push(HostFile {
            path,
            readable: true,
            content: "1\n".to_string(),
            sections: vec![plain_section(1)],
        });
        i += 1;
    }
    let h = Host { files };
    // two workers give waves of eight entries
    let mut runtime = Runtime::new(linter(), String::new(), true, None, 2);
    runtime.with_paths(entries.clone());
    let o = runtime.run(&h);
    assert_eq!(o.deliveries.len(), total);
    let mut seen: Vec<String> = o.deliveries.iter().map(|d| d.path.clone()).collect();
    seen.sort();
    let mut expected = entries.clone();
    expected.sort();
    assert_eq!(seen, expected);
    // one arena serves the whole sequential run
    assert!(o.arenas_created <= 1);
}

#[test]
fn fast_and_graph_paths_agree() {
    // with and without cross-module analysis, the same world yields the
    // same diagnostics for the same files
    let build = || Host {
        files: vec![
            HostFile {
                path: "x.js".to_string(),
                readable: true,
                content: "1\n".to_string(),
                sections: vec![plain_section(2)],
            },
            HostFile {
                path: "y.js".to_string(),
                readable: true,
                content: "2\n".to_string(),
                sections: vec![plain_section(1)],
            },
        ],
    };
    let run_with = |cross: bool, order: Vec<&str>| {
        let mut runtime = Runtime::new(linter(), String::new(), cross, None, 1);
        runtime.with_paths(order.into_iter().map(|p| p.to_string()).collect());
        let o = runtime.run(&build());
        let mut v: Vec<(String, usize)> =
            o.deliveries.iter().map(|d| (d.path.clone(), d.diagnostics.len())).collect();
        v.sort();
        v
    };
    let fast = run_with(false, vec!["x.js", "y.js"]);
    let graph = run_with(true, vec!["x.js", "y.js"]);
    let graph_reversed = run_with(true, vec!["y.js", "x.js"]);
    assert_eq!(fast, graph);
    assert_eq!(graph, graph_reversed);
}

#[test]
fn run_twice_is_idempotent() {
    // no fixing: two runs over unchanged input yield identical deliveries
    let build = || Host {
        files: vec![HostFile {
            path: "idem.js".to_string(),
            readable: true,
            content: "1\n".to_string(),
            sections: vec![plain_section(3)],
        }],
    };
    let run_once = || {
        let mut runtime = Runtime::new(linter(), String::new(), false, None, 1);
        runtime.with_paths(vec!["idem.js".to_string()]);
        let o = runtime.run(&build());
        assert_eq!(o.writes.len(), 0);
        o.deliveries
            .iter()
            .map(|d| (d.path.clone(), d.diagnostics.iter().map(|x| x.message.clone()).collect::<Vec<_>>()))
            .collect::<Vec<_>>()
    };
    assert_eq!(run_once(), run_once());
}

#[test]
fn writes_flow_through_a_file_system() {
    let mut fs = MemoryFileSystem::new(vec![("w.js".to_string(), "1\n".to_string())]);
    let writes = vec![FileWrite { path: "w.js".to_string(), content: "2\n".to_string() }];
    apply_writes(&mut fs, &writes);
    assert_eq!(fs.writes, vec![("w.js".to_string(), "2\n".to_string())]);
}

#[test]
fn fix_disabled_never_writes() {
    let mut section = plain_section(0);
    section.edit = Some(oxlint::host::Edit { start: 0, end: 1, replacement: "2".to_string() });
    let h = Host {
        files: vec![HostFile {
            path: "w.js".to_string(),
            readable: true,
            content: "1\n".to_string(),
            sections: vec![section],
        }],
    };
    let mut runtime = Runtime::new(linter(), String::new(), false, None, 1);
    runtime.with_paths(vec!["w.js".to_string()]);
    let o = runtime.run(&h);
    assert_eq!(o.writes.len(), 0);

    let mut section = plain_section(0);
    section.edit = Some(oxlint::host::Edit { start: 0, end: 1, replacement: "2".to_string() });
    let h = Host {
        files: vec![HostFile {
            path: "w.js".to_string(),
            readable: true,
            content: "1\n".to_string(),
            sections: vec![section],
        }],
    };
    let mut runtime =
        Runtime::new(linter().with_fix(FixKind { fix: true, suggestion: false, dangerous: false }),
            String::new(), false, None, 1);
    runtime.with_paths(vec!["w.js".to_string()]);
    let o = runtime.run(&h);
    assert_eq!(o.writes.len(), 1);
    assert_eq!(o.writes[0].content, "2\n");
}
