use vstd::prelude::*;

verus! {

/// Available interface themes.
#[derive(Debug, Clone, Copy, PartialEq, Eq, Structural)]
pub enum Theme {
    Light,
    Dark,
    System,
}

/// Configuration consumed by the core at construction time.
///
/// `max_history_size` and `retention_days` are advisory retention parameters
/// for the coordinator; `check_interval_ms` paces the watcher's poll loop;
/// `data_dir` locates the backing store. The core treats all of them as
/// read-only inputs.
#[derive(Debug, Clone)]
pub struct Config {
    /// Advisory bound on the number of unpinned items kept.
    pub max_history_size: usize,
    /// Advisory bound on the age of unpinned items, in days.
    pub retention_days: u32,
    /// Poll interval of the clipboard watcher, in milliseconds.
    pub check_interval_ms: u64,
    /// Interface theme.
    pub theme: Theme,
    /// Whether the window stays on top.
    pub always_on_top: bool,
    /// Directory holding the backing store's files. Empty until resolved by
    /// the caller, which owns platform path lookup.
    pub data_dir: String,
}

impl Default for Config {
    /// The default configuration; `data_dir` starts unresolved (empty).
    fn default() -> (r: Self)
        ensures
            r.max_history_size == 100,
            r.retention_days == 30,
            r.check_interval_ms == 500,
            r.theme == Theme::System,
            r.always_on_top == true,
            r.data_dir@ == Seq::<char>::empty(),
    {
        Config {
            max_history_size: 100,
            retention_days: 30,
            check_interval_ms: 500,
            theme: Theme::System,
            always_on_top: true,
            data_dir: String::new(),
        }
    }
}

impl Config {
    /// Returns the same configuration with `data_dir` replaced.
    pub fn with_data_dir(self, data_dir: String) -> (r: Self)
        ensures
            r.max_history_size == self.max_history_size,
            r.retention_days == self.retention_days,
            r.check_interval_ms == self.check_interval_ms,
            r.theme == self.theme,
            r.always_on_top == self.always_on_top,
            r.data_dir@ == data_dir@,
    {
        Config { data_dir, ..self }
    }
}

} // verus!
