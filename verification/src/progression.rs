//! The two tables that pace the game: how many cleared lines end a level,
//! and how long a piece rests between two forced steps down.

use vstd::prelude::*;

verus! {

/// The last level.
pub const MAX_LEVEL: u32 = 10;

/// Total cleared lines above which a level ends, for levels 1 to 10.
pub const LEVEL_LINES: [u32; 10] = [20, 40, 60, 80, 100, 120, 140, 160, 180, 200];

/// Milliseconds between two forced steps down, for levels 1 to 10.
pub const LEVEL_TIMES: [u32; 10] = [1000, 850, 750, 650, 600, 550, 500, 400, 350, 300];

/// The place of a level in the tables: `level - 1`, held inside 0..=9.
pub open spec fn table_index(level: int) -> int {
    if level < 1 {
        0
    } else if level > MAX_LEVEL {
        MAX_LEVEL - 1
    } else {
        level - 1
    }
}

/// Total cleared lines above which `level` ends.
pub open spec fn line_threshold(level: int) -> int {
    LEVEL_LINES@[table_index(level)] as int
}

/// Milliseconds that a piece rests at `level` before it is forced down.
pub open spec fn fall_interval(level: int) -> int {
    LEVEL_TIMES@[table_index(level)] as int
}

/// Lines and level after one more line has been cleared: the level rises by
/// one when the new count of lines is above the level's threshold, and
/// never above the last level.
pub open spec fn line_step(lines: int, level: int) -> (int, int) {
    if lines + 1 > line_threshold(level) && level < MAX_LEVEL {
        (lines + 1, level + 1)
    } else {
        (lines + 1, level)
    }
}

/// Lines and level after `n` more lines have been cleared, one at a time.
pub open spec fn after_lines(lines: int, level: int, n: int) -> (int, int)
    decreases n,
{
    if n <= 0 {
        (lines, level)
    } else {
        let (l, v) = after_lines(lines, level, n - 1);
        line_step(l, v)
    }
}

/// The time in milliseconds that `secs` seconds and `nanos` nanoseconds
/// make, parts of a millisecond dropped.
pub open spec fn millis(secs: int, nanos: int) -> int {
    secs * 1000 + nanos / 1_000_000
}

/// The higher the level, the shorter the rest between two forced steps.
pub proof fn lemma_fall_interval_shrinks(low: int, high: int)
    requires
        low <= high,
    ensures
        fall_interval(high) <= fall_interval(low),
{
    let lo = table_index(low);
    let hi = table_index(high);
    assert(0 <= lo <= hi <= 9);
    assert(LEVEL_TIMES@[0] >= LEVEL_TIMES@[1] >= LEVEL_TIMES@[2] >= LEVEL_TIMES@[3]
        >= LEVEL_TIMES@[4]);
    assert(LEVEL_TIMES@[4] >= LEVEL_TIMES@[5] >= LEVEL_TIMES@[6] >= LEVEL_TIMES@[7]
        >= LEVEL_TIMES@[8] >= LEVEL_TIMES@[9]);
}

/// The threshold of a level is twenty lines per level.
pub proof fn lemma_line_threshold(level: int)
    requires
        1 <= level <= MAX_LEVEL,
    ensures
        line_threshold(level) == 20 * level,
{
    assert(LEVEL_LINES@[0] == 20 && LEVEL_LINES@[1] == 40 && LEVEL_LINES@[2] == 60
        && LEVEL_LINES@[3] == 80 && LEVEL_LINES@[4] == 100);
    assert(LEVEL_LINES@[5] == 120 && LEVEL_LINES@[6] == 140 && LEVEL_LINES@[7] == 160
        && LEVEL_LINES@[8] == 180 && LEVEL_LINES@[9] == 200);
}

/// Clearing lines adds them to the count, never lowers the level, and
/// keeps a level of 1..=10 inside 1..=10.
pub proof fn lemma_after_lines(lines: int, level: int, n: int)
    requires
        0 <= n,
    ensures
        after_lines(lines, level, n).0 == lines + n,
        level <= after_lines(lines, level, n).1 <= level + n,
        1 <= level <= MAX_LEVEL ==> 1 <= after_lines(lines, level, n).1 <= MAX_LEVEL,
    decreases n,
{
    if n > 0 {
        lemma_after_lines(lines, level, n - 1);
    }
}

/// Where in the tables a level stands.
fn index_of_level(level: u32) -> (i: usize)
    ensures
        i == table_index(level as int),
{
    if level < 1 {
        0
    } else if level > MAX_LEVEL {
        (MAX_LEVEL - 1) as usize
    } else {
        (level - 1) as usize
    }
}

/// Total cleared lines above which `level` ends.
pub fn lines_for_level(level: u32) -> (lines: u32)
    ensures
        lines == line_threshold(level as int),
{
    LEVEL_LINES[index_of_level(level)]
}

/// Milliseconds that a piece rests at `level` before it is forced down.
pub fn time_for_level(level: u32) -> (ms: u32)
    ensures
        ms == fall_interval(level as int),
{
    LEVEL_TIMES[index_of_level(level)]
}

/// Whether a time of `secs` seconds and `nanos` nanoseconds is longer than
/// the rest that `level` allows.
pub fn interval_elapsed(level: u32, secs: u64, nanos: u32) -> (over: bool)
    ensures
        over == (millis(secs as int, nanos as int) > fall_interval(level as int)),
{
    let limit = time_for_level(level);
    if secs > 1000 {
        assert(limit <= 1000) by {
            lemma_fall_interval_shrinks(0, level as int);
        }
        true
    } else {
        let ms: u64 = secs * 1000 + (nanos / 1_000_000) as u64;
        ms > limit as u64
    }
}

} // verus!
