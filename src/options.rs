//! The test-runner options that the command line and the configuration file
//! can each set, and how the two are merged.
use vstd::prelude::*;

verus! {

/// Options handed to the test runner; `None` leaves an option unset.
#[derive(Debug, Clone)]
pub struct RunCliOptions {
    pub ci: Option<bool>,
    pub clear_mocks: Option<bool>,
    pub debug: Option<bool>,
    pub expand: Option<bool>,
    pub json: Option<bool>,
    pub list_tests: Option<bool>,
    pub no_stack_trace: Option<bool>,
    pub old_function_spying: Option<bool>,
    pub pass_with_no_tests: Option<bool>,
    pub reset_mocks: Option<bool>,
    pub setup_files: Option<Vec<String>>,
    pub show_config: Option<bool>,
    pub test_match: Option<Vec<String>>,
    pub test_name_pattern: Option<String>,
    pub test_path_ignore_patterns: Option<Vec<String>>,
    pub test_path_pattern: Option<String>,
    pub test_timeout: Option<u32>,
    pub update_snapshot: Option<bool>,
    pub verbose: Option<bool>,
}

/// `over` when it is set, else `base`.
pub open spec fn prefer<T>(over: Option<T>, base: Option<T>) -> Option<T> {
    if over is Some {
        over
    } else {
        base
    }
}

impl RunCliOptions {
    /// Every option is unset.
    pub open spec fn all_unset(&self) -> bool {
        &&& self.ci is None
        &&& self.clear_mocks is None
        &&& self.debug is None
        &&& self.expand is None
        &&& self.json is None
        &&& self.list_tests is None
        &&& self.no_stack_trace is None
        &&& self.old_function_spying is None
        &&& self.pass_with_no_tests is None
        &&& self.reset_mocks is None
        &&& self.setup_files is None
        &&& self.show_config is None
        &&& self.test_match is None
        &&& self.test_name_pattern is None
        &&& self.test_path_ignore_patterns is None
        &&& self.test_path_pattern is None
        &&& self.test_timeout is None
        &&& self.update_snapshot is None
        &&& self.verbose is None
    }

    pub fn is_empty(&self) -> (r: bool)
        ensures
            r == self.all_unset(),
    {
        self.ci.is_none() && self.clear_mocks.is_none() && self.debug.is_none()
            && self.expand.is_none() && self.json.is_none() && self.list_tests.is_none()
            && self.no_stack_trace.is_none() && self.old_function_spying.is_none()
            && self.pass_with_no_tests.is_none() && self.reset_mocks.is_none()
            && self.setup_files.is_none() && self.show_config.is_none()
            && self.test_match.is_none() && self.test_name_pattern.is_none()
            && self.test_path_ignore_patterns.is_none() && self.test_path_pattern.is_none()
            && self.test_timeout.is_none() && self.update_snapshot.is_none()
            && self.verbose.is_none()
    }
}

fn prefer_copy<T: Copy>(over: Option<T>, base: Option<T>) -> (r: Option<T>)
    ensures
        r == prefer(over, base),
{
    match over {
        Some(v) => Some(v),
        None => base,
    }
}

/// Sets in `target` every option that `source` sets, to `source`'s value;
/// the others keep `target`'s value.
pub fn merge_run_cli_options(target: &mut RunCliOptions, source: &RunCliOptions)
    ensures
        final(target).ci == prefer(source.ci, old(target).ci),
        final(target).clear_mocks == prefer(source.clear_mocks, old(target).clear_mocks),
        final(target).debug == prefer(source.debug, old(target).debug),
        final(target).expand == prefer(source.expand, old(target).expand),
        final(target).json == prefer(source.json, old(target).json),
        final(target).list_tests == prefer(source.list_tests, old(target).list_tests),
        final(target).no_stack_trace == prefer(source.no_stack_trace, old(target).no_stack_trace),
        final(target).old_function_spying == prefer(
            source.old_function_spying,
            old(target).old_function_spying,
        ),
        final(target).pass_with_no_tests == prefer(
            source.pass_with_no_tests,
            old(target).pass_with_no_tests,
        ),
        final(target).reset_mocks == prefer(source.reset_mocks, old(target).reset_mocks),
        final(target).setup_files.deep_view() == prefer(
            source.setup_files,
            old(target).setup_files,
        ).deep_view(),
        final(target).show_config == prefer(source.show_config, old(target).show_config),
        final(target).test_match.deep_view() == prefer(
            source.test_match,
            old(target).test_match,
        ).deep_view(),
        final(target).test_name_pattern.deep_view() == prefer(
            source.test_name_pattern,
            old(target).test_name_pattern,
        ).deep_view(),
        final(target).test_path_ignore_patterns.deep_view() == prefer(
            source.test_path_ignore_patterns,
            old(target).test_path_ignore_patterns,
        ).deep_view(),
        final(target).test_path_pattern.deep_view() == prefer(
            source.test_path_pattern,
            old(target).test_path_pattern,
        ).deep_view(),
        final(target).test_timeout == prefer(source.test_timeout, old(target).test_timeout),
        final(target).update_snapshot == prefer(source.update_snapshot, old(target).update_snapshot),
        final(target).verbose == prefer(source.verbose, old(target).verbose),
{
    target.ci = prefer_copy(source.ci, target.ci);
    target.clear_mocks = prefer_copy(source.clear_mocks, target.clear_mocks);
    target.debug = prefer_copy(source.debug, target.debug);
    target.expand = prefer_copy(source.expand, target.expand);
    target.json = prefer_copy(source.json, target.json);
    target.list_tests = prefer_copy(source.list_tests, target.list_tests);
    target.no_stack_trace = prefer_copy(source.no_stack_trace, target.no_stack_trace);
    target.old_function_spying = prefer_copy(source.old_function_spying, target.old_function_spying);
    target.pass_with_no_tests = prefer_copy(source.pass_with_no_tests, target.pass_with_no_tests);
    target.reset_mocks = prefer_copy(source.reset_mocks, target.reset_mocks);
    if let Some(value) = &source.setup_files {
        target.setup_files = Some(value.clone());
    }
    target.show_config = prefer_copy(source.show_config, target.show_config);
    if let Some(value) = &source.test_match {
        target.test_match = Some(value.clone());
    }
    if let Some(value) = &source.test_name_pattern {
        target.test_name_pattern = Some(value.clone());
    }
    if let Some(value) = &source.test_path_ignore_patterns {
        target.test_path_ignore_patterns = Some(value.clone());
    }
    if let Some(value) = &source.test_path_pattern {
        target.test_path_pattern = Some(value.clone());
    }
    target.test_timeout = prefer_copy(source.test_timeout, target.test_timeout);
    target.update_snapshot = prefer_copy(source.update_snapshot, target.update_snapshot);
    target.verbose = prefer_copy(source.verbose, target.verbose);
}

} // verus!
