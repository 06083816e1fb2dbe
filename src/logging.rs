use vstd::prelude::*;

verus! {

/// A message's severity, and a key of the level filter; `Error` is the most
/// severe.
#[derive(Clone, Copy, Debug, PartialEq, Eq, Structural)]
pub enum LogLevel {
    Error,
    Warn,
    Info,
    Debug,
}

/// The bit that stands for `level` in a mask of enabled levels.
pub open spec fn level_bit(level: LogLevel) -> u32 {
    match level {
        LogLevel::Error => 1u32,
        LogLevel::Warn => 2u32,
        LogLevel::Info => 4u32,
        LogLevel::Debug => 8u32,
    }
}

/// `level` is enabled in `mask`.
pub open spec fn mask_enables(mask: u32, level: LogLevel) -> bool {
    mask & level_bit(level) != 0
}

/// `mask` with `level` switched on or off.
pub open spec fn mask_with(mask: u32, level: LogLevel, on: bool) -> u32 {
    if on {
        mask | level_bit(level)
    } else {
        mask & !level_bit(level)
    }
}

/// The set of levels that `mask` enables.
pub open spec fn mask_levels(mask: u32) -> Set<LogLevel> {
    Set::new(|level: LogLevel| mask_enables(mask, level))
}

/// What a dispatch does with a message.
#[derive(Clone, Copy, Debug, PartialEq, Eq, Structural)]
pub enum LogAction {
    /// The level is filtered out: nothing is sent.
    Drop,
    /// The message goes to the sink, and control returns.
    Forward,
    /// The message goes to the sink, and then the process ends.
    ForwardThenExit,
}

/// The action for a message at `level`, given the enabled levels and the
/// exit-on-error flag.
pub open spec fn action_of(enabled: Set<LogLevel>, exit_on_error: bool, level: LogLevel) -> LogAction {
    if !enabled.contains(level) {
        LogAction::Drop
    } else if level == LogLevel::Error && exit_on_error {
        LogAction::ForwardThenExit
    } else {
        LogAction::Forward
    }
}

/// The bit that stands for `level` in a mask of enabled levels.
pub fn level_mask(level: LogLevel) -> (r: u32)
    ensures
        r == level_bit(level),
{
    match level {
        LogLevel::Error => 1u32,
        LogLevel::Warn => 2u32,
        LogLevel::Info => 4u32,
        LogLevel::Debug => 8u32,
    }
}

/// `mask` with `level` switched on or off; the flags of the other levels
/// are kept.
pub fn set_level_in_mask(mask: u32, level: LogLevel, on: bool) -> (r: u32)
    ensures
        r == mask_with(mask, level, on),
        mask_levels(r) == if on {
            mask_levels(mask).insert(level)
        } else {
            mask_levels(mask).remove(level)
        },
{
    proof {
        lemma_mask_with_levels(mask, level, on);
    }
    let bit = level_mask(level);
    if on {
        mask | bit
    } else {
        mask & !bit
    }
}

/// Tells whether `mask` enables `level`.
pub fn mask_has_level(mask: u32, level: LogLevel) -> (r: bool)
    ensures
        r == mask_levels(mask).contains(level),
{
    mask & level_mask(level) != 0
}

/// What to do with a message at `level`, given a mask of enabled levels and
/// the exit-on-error flag.
pub fn dispatch_action(mask: u32, exit_on_error: bool, level: LogLevel) -> (r: LogAction)
    ensures
        r == action_of(mask_levels(mask), exit_on_error, level),
{
    if !mask_has_level(mask, level) {
        LogAction::Drop
    } else if level == LogLevel::Error && exit_on_error {
        LogAction::ForwardThenExit
    } else {
        LogAction::Forward
    }
}

/// The filter and policy that decide what happens to each log message: a
/// mask of enabled levels and the exit-on-error flag.
pub struct LogState {
    enabled: u32,
    exit_on_error: bool,
}

impl LogState {
    /// The mask of enabled levels.
    pub closed spec fn spec_mask(&self) -> u32 {
        self.enabled
    }

    /// The levels whose messages are forwarded.
    pub open spec fn enabled_levels(&self) -> Set<LogLevel> {
        mask_levels(self.spec_mask())
    }

    /// Whether an error message ends the process after it is forwarded.
    pub closed spec fn spec_exit_on_error(&self) -> bool {
        self.exit_on_error
    }

    /// Every level enabled, and errors not fatal.
    pub fn new() -> (r: Self)
        ensures
            r.enabled_levels() == Set::new(|l: LogLevel| true),
            !r.spec_exit_on_error(),
    {
        let r = LogState { enabled: 15u32, exit_on_error: false };
        proof {
            lemma_preset_masks();
        }
        assert(r.enabled_levels() =~= Set::new(|l: LogLevel| true));
        r
    }

    /// A state with the given mask of enabled levels and exit-on-error flag.
    pub fn from_parts(mask: u32, exit_on_error: bool) -> (r: Self)
        ensures
            r.spec_mask() == mask,
            r.spec_exit_on_error() == exit_on_error,
    {
        LogState { enabled: mask, exit_on_error }
    }

    /// The mask of enabled levels.
    pub fn mask(&self) -> (r: u32)
        ensures
            r == self.spec_mask(),
    {
        self.enabled
    }

    /// Whether an error message ends the process after it is forwarded.
    pub fn exit_on_error(&self) -> (r: bool)
        ensures
            r == self.spec_exit_on_error(),
    {
        self.exit_on_error
    }

    /// Switches `level` on or off; the other levels and the exit-on-error
    /// flag are kept.
    pub fn set_level_enabled(&mut self, level: LogLevel, on: bool)
        ensures
            final(self).spec_mask() == mask_with(old(self).spec_mask(), level, on),
            final(self).enabled_levels() == if on {
                old(self).enabled_levels().insert(level)
            } else {
                old(self).enabled_levels().remove(level)
            },
            final(self).spec_exit_on_error() == old(self).spec_exit_on_error(),
    {
        self.enabled = set_level_in_mask(self.enabled, level, on);
    }

    /// Sets whether an error message ends the process; the filter is kept.
    pub fn set_exit_on_error(&mut self, on: bool)
        ensures
            final(self).spec_exit_on_error() == on,
            final(self).spec_mask() == old(self).spec_mask(),
    {
        self.exit_on_error = on;
    }

    /// The preset for a command-line program: errors and warnings are
    /// forwarded, info and debug messages dropped; the exit-on-error flag is
    /// kept.
    pub fn cmdline_logging(&mut self)
        ensures
            final(self).enabled_levels() == set![LogLevel::Error, LogLevel::Warn],
            final(self).spec_exit_on_error() == old(self).spec_exit_on_error(),
    {
        self.enabled = 3u32;
        proof {
            lemma_preset_masks();
        }
        assert(self.enabled_levels() =~= set![LogLevel::Error, LogLevel::Warn]);
    }

    /// Tells whether messages at `level` are forwarded.
    pub fn is_enabled(&self, level: LogLevel) -> (r: bool)
        ensures
            r == self.enabled_levels().contains(level),
    {
        mask_has_level(self.enabled, level)
    }

    /// What to do with a message at `level`: drop it when the level is
    /// filtered out, else forward it, and end the process after an error
    /// while exit-on-error is set.
    pub fn dispatch(&self, level: LogLevel) -> (r: LogAction)
        ensures
            r == action_of(self.enabled_levels(), self.spec_exit_on_error(), level),
    {
        dispatch_action(self.enabled, self.exit_on_error, level)
    }
}

/// The levels of the two preset masks.
proof fn lemma_preset_masks()
    by (bit_vector)
    ensures
        15u32 & 1u32 != 0u32,
        15u32 & 2u32 != 0u32,
        15u32 & 4u32 != 0u32,
        15u32 & 8u32 != 0u32,
        3u32 & 1u32 != 0u32,
        3u32 & 2u32 != 0u32,
        3u32 & 4u32 == 0u32,
        3u32 & 8u32 == 0u32,
{
}

/// Setting or clearing one single-bit flag leaves every other single bit
/// as it was.
proof fn lemma_bit_update(mask: u32, b: u32, c: u32)
    by (bit_vector)
    requires
        b == 1u32 || b == 2u32 || b == 4u32 || b == 8u32,
        c == 1u32 || c == 2u32 || c == 4u32 || c == 8u32,
    ensures
        (mask | b) & c != 0u32 <==> (b == c || mask & c != 0u32),
        (mask & !b) & c != 0u32 <==> (b != c && mask & c != 0u32),
{
}

/// Switching one level on or off sets that level's flag to the value given
/// and leaves the flag of every other level as it was: no level ever reads
/// a flag value that was not set for it.
pub proof fn lemma_set_level_isolated(mask: u32, level: LogLevel, on: bool, other: LogLevel)
    ensures
        mask_enables(mask_with(mask, level, on), other) == if other == level {
            on
        } else {
            mask_enables(mask, other)
        },
{
    lemma_bit_update(mask, level_bit(level), level_bit(other));
}

/// The enabled set after switching `level` on or off.
pub proof fn lemma_mask_with_levels(mask: u32, level: LogLevel, on: bool)
    ensures
        mask_levels(mask_with(mask, level, on)) == if on {
            mask_levels(mask).insert(level)
        } else {
            mask_levels(mask).remove(level)
        },
{
    assert forall|other: LogLevel|
        #![auto]
        mask_levels(mask_with(mask, level, on)).contains(other) == (if on {
            mask_levels(mask).insert(level)
        } else {
            mask_levels(mask).remove(level)
        }).contains(other) by {
        lemma_set_level_isolated(mask, level, on, other);
    }
    assert(mask_levels(mask_with(mask, level, on)) =~= if on {
        mask_levels(mask).insert(level)
    } else {
        mask_levels(mask).remove(level)
    });
}

/// Setters of two different levels give the same filter in either order, so
/// concurrent setters of different levels cannot undo one another.
pub proof fn lemma_setters_commute(mask: u32, a: LogLevel, x: bool, b: LogLevel, y: bool)
    requires
        a != b,
    ensures
        mask_levels(mask_with(mask_with(mask, a, x), b, y)) == mask_levels(
            mask_with(mask_with(mask, b, y), a, x),
        ),
{
    assert forall|l: LogLevel|
        #![auto]
        mask_levels(mask_with(mask_with(mask, a, x), b, y)).contains(l) == mask_levels(
            mask_with(mask_with(mask, b, y), a, x),
        ).contains(l) by {
        lemma_set_level_isolated(mask, a, x, l);
        lemma_set_level_isolated(mask_with(mask, a, x), b, y, l);
        lemma_set_level_isolated(mask, b, y, l);
        lemma_set_level_isolated(mask_with(mask, b, y), a, x, l);
    }
    assert(mask_levels(mask_with(mask_with(mask, a, x), b, y)) =~= mask_levels(
        mask_with(mask_with(mask, b, y), a, x),
    ));
}

/// After a level is switched off, a message at that level is dropped; after
/// it is switched on, the message is forwarded, and the process ends after
/// it only for an error while exit-on-error is set.
pub proof fn lemma_filter_toggle(mask: u32, exit_on_error: bool, level: LogLevel)
    ensures
        action_of(mask_levels(mask_with(mask, level, false)), exit_on_error, level)
            == LogAction::Drop,
        action_of(mask_levels(mask_with(mask, level, true)), exit_on_error, level) == if level
            == LogLevel::Error && exit_on_error {
            LogAction::ForwardThenExit
        } else {
            LogAction::Forward
        },
{
    lemma_set_level_isolated(mask, level, false, level);
    lemma_set_level_isolated(mask, level, true, level);
}

/// With errors enabled, an error is forwarded either way, and the process
/// ends after it exactly when exit-on-error is set.
pub proof fn lemma_error_escalation(enabled: Set<LogLevel>)
    requires
        enabled.contains(LogLevel::Error),
    ensures
        action_of(enabled, true, LogLevel::Error) == LogAction::ForwardThenExit,
        action_of(enabled, false, LogLevel::Error) == LogAction::Forward,
{
}

} // verus!
