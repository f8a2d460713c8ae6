// Unit tests of the small verified pieces: path scans, options, filter
// validation, ignore patterns and exit codes.

use oxlint::cli::{
    validate_paths, BasicOptions, EnablePlugins, FixOptions, IgnoreOptions, InlineConfigOptions,
    LintCommand, LintFilter, MiscOptions, OutputOptions, ReportUnusedDirectives, WarningOptions,
};
use oxlint::lint_runner::{CliRunResult, LintRunner};
use oxlint::options::{
    format_of_word, severity_of_word, AllowWarnDeny, FixKind, OutputFormat,
};
use oxlint::patterns::{AnimalEnum, Cat, Dog};
use oxlint::textscan::{extension_of, has_parent_component, is_processable_path};
use oxlint::walk::{pattern_matches, str_ends_with, under_root};

fn s(x: &str) -> String {
    x.to_string()
}

#[test]
fn paths_with_parent_components_are_rejected() {
    assert!(validate_paths(&vec![s("src"), s("./test.js"), s("sub/app.js")]));
    assert!(validate_paths(&vec![]));
    assert!(!validate_paths(&vec![s("../parent")]));
    assert!(!validate_paths(&vec![s("src/../../etc/passwd")]));
    assert!(validate_paths(&vec![s("src/..hidden/x.js")]));
    assert!(has_parent_component(&s("..")));
    assert!(!has_parent_component(&s("a..b")));
}

#[test]
fn extensions_are_extracted_and_filtered() {
    assert_eq!(extension_of(&s("dir/app.min.js")), Some(s("js")));
    assert_eq!(extension_of(&s("dir/app")), None);
    assert_eq!(extension_of(&s("dir.d/app")), None);
    assert!(is_processable_path(&s("a/b.ts")));
    assert!(is_processable_path(&s("a/b.astro")));
    assert!(!is_processable_path(&s("a/b.txt")));
    assert!(!is_processable_path(&s("a/b")));
}

#[test]
fn fix_kind_combines_the_flags() {
    let none = FixOptions { fix: false, fix_suggestions: false, fix_dangerously: false };
    assert!(none.fix_kind().is_none());
    assert!(!none.is_enabled());

    let fix = FixOptions { fix: true, fix_suggestions: false, fix_dangerously: false };
    assert_eq!(fix.fix_kind(), FixKind { fix: true, suggestion: false, dangerous: false });

    let dangerous = FixOptions { fix: false, fix_suggestions: false, fix_dangerously: true };
    assert_eq!(dangerous.fix_kind(), FixKind { fix: true, suggestion: false, dangerous: true });

    let both = FixOptions { fix: false, fix_suggestions: true, fix_dangerously: true };
    assert_eq!(both.fix_kind(), FixKind { fix: false, suggestion: true, dangerous: true });
    assert!(both.is_enabled());
}

#[test]
fn filters_turn_into_tuples() {
    assert_eq!(
        LintFilter::Deny(s("correctness")).into_tuple(),
        (AllowWarnDeny::Deny, s("correctness"))
    );
    assert_eq!(LintFilter::Allow(s("no-var")).into_tuple(), (AllowWarnDeny::Allow, s("no-var")));
    assert_eq!(LintFilter::Warn(s("style")).into_tuple(), (AllowWarnDeny::Warn, s("style")));
}

#[test]
fn words_name_severities_and_formats() {
    assert_eq!(severity_of_word(&s("allow")), Some(AllowWarnDeny::Allow));
    assert_eq!(severity_of_word(&s("warn")), Some(AllowWarnDeny::Warn));
    assert_eq!(severity_of_word(&s("deny")), Some(AllowWarnDeny::Deny));
    assert_eq!(severity_of_word(&s("error")), Some(AllowWarnDeny::Deny));
    assert_eq!(severity_of_word(&s("loud")), None);
    assert_eq!(format_of_word(&s("json")), Some(OutputFormat::Json));
    assert_eq!(format_of_word(&s("github")), Some(OutputFormat::Github));
    assert_eq!(format_of_word(&s("asdf")), None);
}

#[test]
fn malformed_filters_name_their_fault() {
    let ok = LintRunner::get_filters(vec![
        (AllowWarnDeny::Deny, s("correctness")),
        (AllowWarnDeny::Allow, s("eslint/no-unused-vars")),
    ])
    .unwrap();
    assert_eq!(ok.len(), 2);
    assert_eq!(ok[1].name, "eslint/no-unused-vars");

    let (code, message) =
        LintRunner::get_filters(vec![(AllowWarnDeny::Deny, s(""))]).unwrap_err();
    assert_eq!(code, CliRunResult::InvalidOptionSeverityWithoutFilter);
    assert_eq!(message, "Cannot deny an empty filter.\n");

    let (code, _m) =
        LintRunner::get_filters(vec![(AllowWarnDeny::Deny, s("/rule-name"))]).unwrap_err();
    assert_eq!(code, CliRunResult::InvalidOptionSeverityWithoutPluginName);

    let (code, _m) =
        LintRunner::get_filters(vec![(AllowWarnDeny::Warn, s("plugin/"))]).unwrap_err();
    assert_eq!(code, CliRunResult::InvalidOptionSeverityWithoutRuleName);
}

#[test]
fn ignore_patterns_match_by_suffix_or_root() {
    assert!(pattern_matches(&s("**/*.js"), &s("deep/dir/app.js")));
    assert!(!pattern_matches(&s("**/*.js"), &s("deep/dir/app.ts")));
    assert!(pattern_matches(&s("*.ts"), &s("main.ts")));
    assert!(pattern_matches(&s("build"), &s("build/out.js")));
    assert!(pattern_matches(&s("build"), &s("build")));
    assert!(!pattern_matches(&s("build"), &s("builder/out.js")));
    assert!(str_ends_with(&s("app.min.js"), &s(".js")));
    assert!(under_root(&s("a/b/c.js"), &s("a/b")));
    assert!(!under_root(&s("a/bc/c.js"), &s("a/b")));
}

#[test]
fn exit_codes_follow_the_tallies() {
    assert_eq!(LintRunner::exit_code(0, 0, false, None), CliRunResult::LintSucceeded);
    assert_eq!(LintRunner::exit_code(1, 0, false, None), CliRunResult::LintFoundErrors);
    assert_eq!(LintRunner::exit_code(0, 3, false, None), CliRunResult::LintSucceeded);
    assert_eq!(LintRunner::exit_code(0, 3, true, None), CliRunResult::LintNoWarningsAllowed);
    assert_eq!(LintRunner::exit_code(0, 3, false, Some(2)), CliRunResult::LintMaxWarningsExceeded);
    assert_eq!(LintRunner::exit_code(0, 2, false, Some(2)), CliRunResult::LintSucceeded);
    assert_eq!(LintRunner::exit_code(0, 0, false, Some(0)), CliRunResult::LintSucceeded);
}

#[test]
fn threads_default_to_the_machine() {
    let base = || {
        let mut cmd = blank_command();
        cmd
    };
    let mut cmd = base();
    cmd.misc_options.threads = Some(4);
    assert_eq!(cmd.handle_threads(Some(8)), 4);
    let mut cmd = base();
    cmd.misc_options.threads = Some(0);
    assert_eq!(cmd.handle_threads(Some(8)), 8);
    let cmd = base();
    assert_eq!(cmd.handle_threads(Some(8)), 8);
    let cmd = base();
    assert_eq!(cmd.handle_threads(None), 1);
}

#[test]
fn closed_enum_dispatch_example() {
    let dog = AnimalEnum::Dog(Dog { name: s("Buddy") });
    let cat = AnimalEnum::Cat(Cat { name: s("Whiskers") });
    assert_eq!(dog.make_sound(), "Woof!");
    assert_eq!(cat.make_sound(), "Meow!");
    assert_eq!(dog.get_name(), "Buddy");
    assert_eq!(cat.get_name(), "Whiskers");
    assert_eq!(dog.get_type(), "dog");
    assert_eq!(cat.get_type(), "cat");
}

fn blank_command() -> LintCommand {
    LintCommand {
        basic_options: BasicOptions { config: None, tsconfig: None, init: false },
        filter: Vec::new(),
        enable_plugins: EnablePlugins::default(),
        fix_options: FixOptions { fix: false, fix_suggestions: false, fix_dangerously: false },
        ignore_options: IgnoreOptions {
            no_ignore: false,
            ignore_path: String::new(),
            ignore_pattern: Vec::new(),
        },
        warning_options: WarningOptions { quiet: false, deny_warnings: false, max_warnings: None },
        output_options: OutputOptions { format: OutputFormat::Default },
        list_rules: false,
        misc_options: MiscOptions { silent: false, threads: None, print_config: false },
        disable_nested_config: false,
        type_aware: false,
        inline_config_options: InlineConfigOptions {
            report_unused_directives: ReportUnusedDirectives::WithoutSeverity(false),
        },
        paths: Vec::new(),
    }
}
