//! Timed jobs. A job is known by its name, belongs to a group, and what it does is
//! known by a number; whoever runs jobs asks here when to wake up and what to do then.
use crate::collections::{has_key, keys_ascend, lemma_entry_in_map, text_less, TextMap};
use crate::text::{owned, same};
use chrono::Timelike;
use vstd::prelude::*;
use vstd::string::StringExecFns;

verus! {

/// The milliseconds of a day.
pub const DAY_MILLIS: i64 = 86_400_000;

/// How long a paused job sleeps before it looks again.
pub const PAUSE_MILLIS: i64 = 1000;

/// When a job runs.
#[derive(Clone, Copy, Debug, PartialEq, Eq, Structural)]
pub enum TaskKind {
    /// Once a day, at an hour.
    Daily { hour: u32 },
    /// Again and again, at first at once.
    Repeat { interval_secs: u64 },
    /// Once, at a time in milliseconds.
    SingleAt { ts_ms: i64 },
}

/// A job, as it is listed.
#[derive(Debug, PartialEq)]
pub struct TaskInfo {
    pub name: String,
    pub group: String,
    pub next_fire_ms: Option<i64>,
    pub last_fire_ms: Option<i64>,
}

/// A job.
#[derive(Debug)]
pub struct TaskEntry {
    /// Tells a job from an earlier one of the same name.
    pub serial: u64,
    pub group: String,
    pub kind: TaskKind,
    /// What the job does.
    pub run: u64,
    pub paused: bool,
    pub last_fire: Option<i64>,
    pub next_fire: Option<i64>,
}

/// A job.
#[verifier::ext_equal]
pub struct EntryView {
    pub serial: u64,
    pub group: Seq<char>,
    pub kind: TaskKind,
    pub run: u64,
    pub paused: bool,
    pub last_fire: Option<i64>,
    pub next_fire: Option<i64>,
}

impl View for TaskEntry {
    type V = EntryView;

    open spec fn view(&self) -> EntryView {
        EntryView {
            serial: self.serial,
            group: self.group@,
            kind: self.kind,
            run: self.run,
            paused: self.paused,
            last_fire: self.last_fire,
            next_fire: self.next_fire,
        }
    }
}

impl TaskEntry {
    fn copy(&self) -> (r: TaskEntry)
        ensures
            r@ == self@,
    {
        TaskEntry {
            serial: self.serial,
            group: self.group.clone(),
            kind: self.kind,
            run: self.run,
            paused: self.paused,
            last_fire: self.last_fire,
            next_fire: self.next_fire,
        }
    }
}

// ---------------------------------------------------------------------------
// times

/// The nearest number of sixty-four bits.
pub open spec fn clamped(n: int) -> i64 {
    if n < i64::MIN {
        i64::MIN
    } else if n > i64::MAX {
        i64::MAX
    } else {
        n as i64
    }
}

fn clamp_millis(n: i128) -> (r: i64)
    ensures
        r == clamped(n as int),
{
    if n < -9_223_372_036_854_775_808 {
        i64::MIN
    } else if n > 9_223_372_036_854_775_807 {
        i64::MAX
    } else {
        n as i64
    }
}

/// The next time after now, given the time of day today: today if it is still to
/// come, else a day later.
pub open spec fn daily_after(today_ms: i64, now_ms: i64) -> i64 {
    if today_ms <= now_ms {
        clamped(today_ms + DAY_MILLIS)
    } else {
        today_ms
    }
}

/// The next time after now, given the time of day today.
pub fn next_after(today_ms: i64, now_ms: i64) -> (r: i64)
    ensures
        r == daily_after(today_ms, now_ms),
{
    if today_ms <= now_ms {
        clamp_millis(today_ms as i128 + 86_400_000)
    } else {
        today_ms
    }
}

/// The first time for which there is a date.
pub const FIRST_MILLIS: i64 = -8_334_601_228_800_000;

/// The last time for which there is a date.
pub const LAST_MILLIS: i64 = 8_210_266_876_799_999;

/// Whether there is a date for a time.
pub open spec fn on_calendar(ms: i64) -> bool {
    FIRST_MILLIS <= ms <= LAST_MILLIS
}

/// `chrono::DateTime::from_timestamp_millis`: whether it finds a date for a time. It
/// does from the beginning of the year -262143 to the end of the year 262142.
#[verifier::external_body]
fn has_date(ms: i64) -> (r: bool)
    ensures
        r == on_calendar(ms),
{
    chrono::DateTime::from_timestamp_millis(ms).is_some()
}

/// Whether a time, given how many seconds the local clock is ahead of it, is one at
/// which the local clock shows a time of day, on the local date of another time.
pub open spec fn shows(
    at: (i64, i32),
    near_ms: i64,
    hour: u32,
    minute: u32,
    second: u32,
    nano: u32,
) -> bool {
    &&& hour < 24 && minute < 60 && second < 60
    &&& -86_400 < at.1 < 86_400
    &&& (at.0 + at.1 * 1000) % (DAY_MILLIS as int) == hour * 3_600_000 + minute * 60_000 + second
        * 1000 + nano as int / 1_000_000
    &&& -3 * DAY_MILLIS < at.0 - near_ms < 3 * DAY_MILLIS
}

/// A time of the day of another time, by the local clock: `with_hour`, `with_minute`,
/// `with_second` and `with_nanosecond` of `chrono::Timelike`, one after another, on that
/// time in `chrono::Local`, in milliseconds, with the offset that the local clock then
/// has. There is none where the other time has no date, where the numbers are no time of
/// day, and where the local clock shows one of the times on the way never or twice. What
/// is found is on the local date of the other time and shows the time of day asked for;
/// offsets are shorter than a day, so it lies less than three days off. Which time it is,
/// and whether there is one, the time zone of the machine decides: that is not stated.
#[verifier::external_body]
fn local_time_of_day(now_ms: i64, hour: u32, minute: u32, second: u32, nano: u32) -> (r: Option<
    (i64, i32),
>)
    requires
        nano < 1_000_000_000,
    ensures
        match r {
            Some(at) => on_calendar(now_ms) && shows(at, now_ms, hour, minute, second, nano),
            None => true,
        },
{
    let now = chrono::DateTime::from_timestamp_millis(now_ms)?.with_timezone(&chrono::Local);
    let at = now.with_hour(hour)?.with_minute(minute)?.with_second(second)?.with_nanosecond(nano)?;
    Some((at.timestamp_millis(), at.offset().local_minus_utc()))
}

/// The time of day on a date, or where the local clock does not show it just once,
/// the time that the date was taken from.
pub open spec fn time_on_date(found: Option<(i64, i32)>, base_ms: i64) -> i64 {
    match found {
        Some(at) => at.0,
        None => base_ms,
    }
}

/// The next time after now, given the time of day found on the date of another time.
pub fn next_daily_from(found: Option<(i64, i32)>, base_ms: i64, now_ms: i64) -> (r: i64)
    ensures
        r == daily_after(time_on_date(found, base_ms), now_ms),
{
    match found {
        Some(at) => next_after(at.0, now_ms),
        None => next_after(base_ms, now_ms),
    }
}

/// Whether looking for the full hour by the local clock, on the date of a time, may end
/// with that: it is a value that `local_time_of_day` returns for these arguments.
pub closed spec fn clock_may_find(base_ms: i64, hour: u32, found: Option<(i64, i32)>) -> bool {
    call_ensures(local_time_of_day, (base_ms, hour, 0u32, 0u32, 0u32), found)
}

/// Whether the time of day at an hour may be looked for, and found, on that date: the
/// date of now, or where now has none, of any time. What is found is what the local
/// clock says of that very hour on that very date, nothing included.
pub open spec fn hour_looked_for(
    hour: u32,
    now_ms: i64,
    base_ms: i64,
    found: Option<(i64, i32)>,
) -> bool {
    &&& on_calendar(now_ms) ==> base_ms == now_ms
    &&& clock_may_find(base_ms, hour, found)
    &&& match found {
        Some(at) => on_calendar(base_ms) && shows(at, base_ms, hour, 0, 0, 0),
        None => true,
    }
}

/// Whether a time may be the next one after now that the local clock shows an hour.
pub open spec fn may_come_daily(hour: u32, now_ms: i64, next_ms: i64) -> bool {
    exists|base_ms: i64, found: Option<(i64, i32)>| #[trigger]
        hour_looked_for(hour, now_ms, base_ms, found) && next_ms == daily_after(
            time_on_date(found, base_ms),
            now_ms,
        )
}

/// Looks for a full hour on the date of a time.
fn look_for_hour(
    look: impl Fn(i64, u32, u32, u32, u32) -> Option<(i64, i32)>,
    base_ms: i64,
    hour: u32,
) -> (r: Option<(i64, i32)>)
    requires
        call_requires(look, (base_ms, hour, 0u32, 0u32, 0u32)),
    ensures
        call_ensures(look, (base_ms, hour, 0u32, 0u32, 0u32), r),
{
    look(base_ms, hour, 0, 0, 0)
}

/// The next time that the local clock shows an hour. Where now has no date, that of
/// the clock is taken.
pub fn next_daily_ms(hour: u32, now_ms: i64) -> (r: i64)
    ensures
        may_come_daily(hour, now_ms, r),
{
    let base_ms: i64 = if has_date(now_ms) {
        now_ms
    } else {
        utc_millis()
    };
    let found: Option<(i64, i32)> = look_for_hour(local_time_of_day, base_ms, hour);
    assert(hour_looked_for(hour, now_ms, base_ms, found));
    next_daily_from(found, base_ms, now_ms)
}

/// An hour that the clock never shows comes a day from now.
pub proof fn law_unknown_hours_come_a_day_later(hour: u32, now_ms: i64, next_ms: i64)
    requires
        may_come_daily(hour, now_ms, next_ms),
        on_calendar(now_ms),
        hour >= 24,
    ensures
        next_ms == now_ms + DAY_MILLIS,
{
}

/// What the local clock may say of an hour is just what `local_time_of_day` may return
/// for the full hour; where it finds a time, the clock shows that hour then.
proof fn lemma_the_clock_is_asked(base_ms: i64, hour: u32, found: Option<(i64, i32)>)
    ensures
        clock_may_find(base_ms, hour, found) == call_ensures(
            local_time_of_day,
            (base_ms, hour, 0u32, 0u32, 0u32),
            found,
        ),
        clock_may_find(base_ms, hour, found) ==> (found matches Some((at, ahead)) ==> hour < 24 && (
        at + ahead * 1000) % 86_400_000 == hour * 3_600_000),
{
}

/// Where the local clock shows an hour on the date of now, so that looking for it cannot
/// end with nothing, the next time is one at which the local clock shows that full hour:
/// the time that was found, if it is still to come, else the one a day later.
pub proof fn law_the_hour_comes_where_the_clock_shows_it(hour: u32, now_ms: i64, next_ms: i64)
    requires
        may_come_daily(hour, now_ms, next_ms),
        on_calendar(now_ms),
        !clock_may_find(now_ms, hour, None),
    ensures
        hour < 24,
        exists|at: i64, ahead: i32|
            {
                &&& #[trigger] clock_may_find(now_ms, hour, Some((at, ahead)))
                &&& next_ms == if at > now_ms {
                    at as int
                } else {
                    at + 86_400_000
                }
                &&& (next_ms + ahead * 1000) % 86_400_000 == hour * 3_600_000
            },
{
    let (base_ms, found) = choose|base_ms: i64, found: Option<(i64, i32)>| #[trigger]
        hour_looked_for(hour, now_ms, base_ms, found) && next_ms == daily_after(
            time_on_date(found, base_ms),
            now_ms,
        );
    lemma_the_clock_is_asked(base_ms, hour, found);
    let (at, ahead) = found->0;
    assert(clock_may_find(now_ms, hour, Some((at, ahead))));
}

/// Where the local clock does not show an hour just once on the date of now, so that
/// looking for it can only end with nothing, the next time is a day from now.
pub proof fn law_a_skipped_hour_comes_a_day_later(hour: u32, now_ms: i64, next_ms: i64)
    requires
        may_come_daily(hour, now_ms, next_ms),
        on_calendar(now_ms),
        forall|at: (i64, i32)| !#[trigger] clock_may_find(now_ms, hour, Some(at)),
    ensures
        next_ms == now_ms + 86_400_000,
{
}

/// The time: `chrono::Utc::now` in milliseconds. Nothing is stated of it.
#[verifier::external_body]
fn utc_millis() -> (r: i64) {
    chrono::Utc::now().timestamp_millis()
}

/// How long a job waits, given the next time of its hour; none where it never runs
/// again.
pub open spec fn delay_of(
    kind: TaskKind,
    last_fire: Option<i64>,
    now_ms: i64,
    daily_ms: i64,
) -> Option<i64> {
    match kind {
        TaskKind::Daily { .. } => Some(clamped(daily_ms - now_ms)),
        TaskKind::Repeat { interval_secs } => match last_fire {
            Some(last) => if last == 0 {
                Some(0)
            } else {
                let delay = last + interval_secs * 1000 - now_ms;
                Some(
                    if delay < 0 {
                        0
                    } else {
                        clamped(delay)
                    },
                )
            },
            None => Some(0),
        },
        TaskKind::SingleAt { ts_ms } => if now_ms >= ts_ms {
            None
        } else {
            Some(clamped(ts_ms - now_ms))
        },
    }
}

/// The next time that a waiting job shows, given the next time of its hour.
pub open spec fn shown_next(kind: TaskKind, shown: Option<i64>, daily_ms: i64) -> Option<i64> {
    match kind {
        TaskKind::Daily { .. } => Some(daily_ms),
        TaskKind::Repeat { .. } => shown,
        TaskKind::SingleAt { ts_ms } => Some(ts_ms),
    }
}

/// The next time after a run, given the next time of its hour; none where the job
/// never runs again.
pub open spec fn next_of(kind: TaskKind, after_ms: i64, daily_ms: i64) -> Option<i64> {
    match kind {
        TaskKind::Daily { .. } => Some(daily_ms),
        TaskKind::Repeat { interval_secs } => Some(clamped(after_ms + interval_secs * 1000)),
        TaskKind::SingleAt { .. } => None,
    }
}

/// How long a job waits, given the next time of its hour.
pub fn wait_for(kind: TaskKind, last_fire: Option<i64>, now_ms: i64, daily_ms: i64) -> (r: Option<
    i64,
>)
    ensures
        r == delay_of(kind, last_fire, now_ms, daily_ms),
{
    match kind {
        TaskKind::Daily { .. } => Some(clamp_millis(daily_ms as i128 - now_ms as i128)),
        TaskKind::Repeat { interval_secs } => match last_fire {
            Some(last) => if last == 0 {
                Some(0)
            } else {
                let delay: i128 = last as i128 + interval_secs as i128 * 1000 - now_ms as i128;
                if delay < 0 {
                    Some(0)
                } else {
                    Some(clamp_millis(delay))
                }
            },
            None => Some(0),
        },
        TaskKind::SingleAt { ts_ms } => if now_ms >= ts_ms {
            None
        } else {
            Some(clamp_millis(ts_ms as i128 - now_ms as i128))
        },
    }
}

/// The next time after a run, given the next time of its hour.
pub fn compute_next_after(kind: TaskKind, after_ms: i64, daily_ms: i64) -> (r: Option<i64>)
    ensures
        r == next_of(kind, after_ms, daily_ms),
{
    match kind {
        TaskKind::Daily { .. } => Some(daily_ms),
        TaskKind::Repeat { interval_secs } => Some(
            clamp_millis(after_ms as i128 + interval_secs as i128 * 1000),
        ),
        TaskKind::SingleAt { .. } => None,
    }
}

// ---------------------------------------------------------------------------
// the table

/// What a job does when it wakes up.
#[derive(Clone, Copy, Debug, PartialEq, Eq, Structural)]
pub enum Wake {
    /// It was taken off the table, or replaced: it ends.
    Cancelled,
    /// It is paused, and sleeps for so many milliseconds.
    Paused(i64),
    /// It does what it does.
    Fire(u64),
}

/// The jobs, by name.
#[derive(Debug)]
pub struct Scheduler {
    pub tasks: TextMap<TaskEntry>,
    pub next_serial: u64,
}

/// The views of the jobs of a table.
pub open spec fn entry_views(tasks: Map<Seq<char>, TaskEntry>) -> Map<Seq<char>, EntryView> {
    tasks.map_values(|entry: TaskEntry| entry@)
}

/// The number after another.
pub open spec fn serial_after(serial: u64) -> u64 {
    if serial == u64::MAX {
        0
    } else {
        (serial + 1) as u64
    }
}

impl View for Scheduler {
    type V = Map<Seq<char>, EntryView>;

    open spec fn view(&self) -> Map<Seq<char>, EntryView> {
        entry_views(self.tasks@)
    }
}

/// A job that was just made.
pub open spec fn fresh(serial: u64, group: Seq<char>, kind: TaskKind, run: u64) -> EntryView {
    EntryView {
        serial,
        group,
        kind,
        run,
        paused: false,
        last_fire: None,
        next_fire: None,
    }
}

/// The jobs of other groups.
pub open spec fn outside_group(
    tasks: Map<Seq<char>, EntryView>,
    group: Seq<char>,
) -> Map<Seq<char>, EntryView> {
    Map::new(
        |name: Seq<char>| tasks.contains_key(name) && tasks[name].group != group,
        |name: Seq<char>| tasks[name],
    )
}

/// The jobs, all paused or all running on.
pub open spec fn all_paused(
    tasks: Map<Seq<char>, EntryView>,
    paused: bool,
) -> Map<Seq<char>, EntryView> {
    tasks.map_values(|entry: EntryView| EntryView { paused, ..entry })
}

/// Whether the job of that name and serial is on the table.
pub open spec fn on_table(tasks: Map<Seq<char>, EntryView>, name: Seq<char>, serial: u64) -> bool {
    tasks.contains_key(name) && tasks[name].serial == serial
}

/// Whether the serials of all jobs on the table have been given out before the next
/// one.
pub open spec fn serials_given(tasks: Map<Seq<char>, EntryView>, next_serial: u64) -> bool {
    forall|name: Seq<char>| #[trigger]
        tasks.contains_key(name) ==> tasks[name].serial < next_serial
}

/// What a job does when it wakes up.
pub open spec fn wake_of(tasks: Map<Seq<char>, EntryView>, name: Seq<char>, serial: u64) -> Wake {
    if !on_table(tasks, name, serial) {
        Wake::Cancelled
    } else if tasks[name].paused {
        Wake::Paused(PAUSE_MILLIS)
    } else {
        Wake::Fire(tasks[name].run)
    }
}

/// The view of a listed job.
pub open spec fn info_matches(info: TaskInfo, name: Seq<char>, entry: EntryView) -> bool {
    &&& info.name@ == name
    &&& info.group@ == entry.group
    &&& info.next_fire_ms == entry.next_fire
    &&& info.last_fire_ms == entry.last_fire
}

/// Whether a list holds the jobs of a table in the order of their names.
pub open spec fn lists_table(infos: Seq<TaskInfo>, tasks: Map<Seq<char>, EntryView>) -> bool {
    &&& forall|i: int, j: int|
        0 <= i < j < infos.len() ==> text_less(
            (#[trigger] infos[i]).name@,
            (#[trigger] infos[j]).name@,
        )
    &&& forall|i: int|
        0 <= i < infos.len() ==> tasks.contains_key((#[trigger] infos[i]).name@) && info_matches(
            infos[i],
            infos[i].name@,
            tasks[infos[i].name@],
        )
    &&& forall|name: Seq<char>| #[trigger]
        tasks.contains_key(name) ==> exists|i: int|
            0 <= i < infos.len() && (#[trigger] infos[i]).name@ == name
}

/// How many jobs of some entries are in a group.
pub open spec fn group_count(entries: Seq<(String, TaskEntry)>, group: Seq<char>) -> nat
    decreases entries.len(),
{
    if entries.len() == 0 {
        0
    } else {
        group_count(entries.drop_last(), group) + if entries.last().1.group@ == group {
            1nat
        } else {
            0nat
        }
    }
}

impl Scheduler {
    /// No job.
    pub fn new() -> (r: Scheduler)
        ensures
            r@ == Map::<Seq<char>, EntryView>::empty(),
            r.next_serial == 1,
            serials_given(r@, r.next_serial),
    {
        let r = Scheduler { tasks: TextMap::new(), next_serial: 1 };
        assert(r@ =~= Map::<Seq<char>, EntryView>::empty());
        r
    }

    /// Puts a job on the table; it replaces the one of its name.
    fn register(&mut self, name: &str, group: &str, kind: TaskKind, run: u64) -> (serial: u64)
        ensures
            serial == old(self).next_serial,
            final(self).next_serial == serial_after(serial),
            serials_given(old(self)@, old(self).next_serial) && serial < u64::MAX ==> serials_given(
                final(self)@,
                final(self).next_serial,
            ),
            final(self)@ == old(self)@.insert(name@, fresh(serial, group@, kind, run)),
    {
        let serial: u64 = self.next_serial;
        self.next_serial = if serial == u64::MAX {
            0
        } else {
            serial + 1
        };
        let entry = TaskEntry {
            serial,
            group: owned(group),
            kind,
            run,
            paused: false,
            last_fire: None,
            next_fire: None,
        };
        self.tasks.insert(owned(name), entry);
        assert(self@ =~= old(self)@.insert(name@, fresh(serial, group@, kind, run)));
        serial
    }

    /// Makes a job that runs once a day, at an hour.
    pub fn create_daily(&mut self, hour: u32, name: &str, group: &str, run: u64) -> (serial: u64)
        ensures
            serial == old(self).next_serial,
            final(self).next_serial == serial_after(serial),
            serials_given(old(self)@, old(self).next_serial) && serial < u64::MAX ==> serials_given(
                final(self)@,
                final(self).next_serial,
            ),
            final(self)@ == old(self)@.insert(
                name@,
                fresh(serial, group@, TaskKind::Daily { hour }, run),
            ),
    {
        self.register(name, group, TaskKind::Daily { hour }, run)
    }

    /// Makes a job that runs again and again, at least a second apart.
    pub fn create_repeat(&mut self, interval_secs: u64, name: &str, group: &str, run: u64) -> (serial:
        u64)
        ensures
            serial == old(self).next_serial,
            final(self).next_serial == serial_after(serial),
            serials_given(old(self)@, old(self).next_serial) && serial < u64::MAX ==> serials_given(
                final(self)@,
                final(self).next_serial,
            ),
            final(self)@ == old(self)@.insert(
                name@,
                fresh(
                    serial,
                    group@,
                    TaskKind::Repeat {
                        interval_secs: if interval_secs < 1 {
                            1
                        } else {
                            interval_secs
                        },
                    },
                    run,
                ),
            ),
    {
        let interval_secs: u64 = if interval_secs < 1 {
            1
        } else {
            interval_secs
        };
        self.register(name, group, TaskKind::Repeat { interval_secs }, run)
    }

    /// Makes a job that runs once, at a time.
    pub fn create_single_at(&mut self, ts_ms: i64, name: &str, group: &str, run: u64) -> (serial: u64)
        ensures
            serial == old(self).next_serial,
            final(self).next_serial == serial_after(serial),
            serials_given(old(self)@, old(self).next_serial) && serial < u64::MAX ==> serials_given(
                final(self)@,
                final(self).next_serial,
            ),
            final(self)@ == old(self)@.insert(
                name@,
                fresh(serial, group@, TaskKind::SingleAt { ts_ms }, run),
            ),
    {
        self.register(name, group, TaskKind::SingleAt { ts_ms }, run)
    }

    /// Makes a job that runs once, so many seconds after a time.
    pub fn create_delay_from(
        &mut self,
        now_ms: i64,
        delay_secs: u64,
        name: &str,
        group: &str,
        run: u64,
    ) -> (serial: u64)
        ensures
            serial == old(self).next_serial,
            final(self).next_serial == serial_after(serial),
            serials_given(old(self)@, old(self).next_serial) && serial < u64::MAX ==> serials_given(
                final(self)@,
                final(self).next_serial,
            ),
            final(self)@ == old(self)@.insert(
                name@,
                fresh(
                    serial,
                    group@,
                    TaskKind::SingleAt { ts_ms: clamped(now_ms + delay_secs * 1000) },
                    run,
                ),
            ),
    {
        let ts_ms: i64 = clamp_millis(now_ms as i128 + delay_secs as i128 * 1000);
        self.register(name, group, TaskKind::SingleAt { ts_ms }, run)
    }

    /// Makes a job that runs once, so many seconds from now.
    pub fn create_delay(&mut self, delay_secs: u64, name: &str, group: &str, run: u64) -> (serial: u64)
        ensures
            serial == old(self).next_serial,
            final(self).next_serial == serial_after(serial),
            serials_given(old(self)@, old(self).next_serial) && serial < u64::MAX ==> serials_given(
                final(self)@,
                final(self).next_serial,
            ),
            exists|now_ms: i64|
                final(self)@ == #[trigger] old(self)@.insert(
                    name@,
                    fresh(
                        serial,
                        group@,
                        TaskKind::SingleAt { ts_ms: clamped(now_ms + delay_secs * 1000) },
                        run,
                    ),
                ),
    {
        let now_ms: i64 = utc_millis();
        self.create_delay_from(now_ms, delay_secs, name, group, run)
    }

    /// Whether there is a job of that name.
    pub fn contains(&self, name: &str) -> (r: bool)
        ensures
            r == self@.contains_key(name@),
    {
        self.tasks.contains(name)
    }

    /// Takes a job off the table; false where there is none of that name.
    pub fn remove(&mut self, name: &str) -> (r: bool)
        ensures
            r == old(self)@.contains_key(name@),
            final(self)@ == old(self)@.remove(name@),
            final(self).next_serial == old(self).next_serial,
            serials_given(old(self)@, old(self).next_serial) ==> serials_given(
                final(self)@,
                final(self).next_serial,
            ),
    {
        let taken = self.tasks.remove(name);
        assert(self@ =~= old(self)@.remove(name@));
        match taken {
            Some(_) => true,
            None => false,
        }
    }

    /// Takes all jobs of a group off the table and tells how many they were.
    pub fn remove_group(&mut self, group: &str) -> (r: usize)
        ensures
            final(self)@ == outside_group(old(self)@, group@),
            r == group_count(old(self).tasks.listed(), group@),
            r == old(self).tasks.listed().len() - final(self).tasks.listed().len(),
            final(self).next_serial == old(self).next_serial,
            serials_given(old(self)@, old(self).next_serial) ==> serials_given(
                final(self)@,
                final(self).next_serial,
            ),
    {
        let ghost all = self.tasks.listed();
        let total: usize = self.tasks.len();
        let mut seen: usize = 0;
        let mut i: usize = 0;
        let mut count: usize = 0;
        assert(all.subrange(0, all.len() as int) =~= all);
        let ghost start = self.tasks@;
        while seen < total
            invariant
                seen <= total,
                total == all.len(),
                i + count == seen,
                self.tasks.listed().len() == all.len() - count,
                forall|k: int|
                    seen <= k < all.len() ==> self.tasks.listed()[k - count] == #[trigger] all[k],
                count == group_count(all.take(seen as int), group@),
                forall|name: Seq<char>| #[trigger]
                    self.tasks@.contains_key(name) ==> start.contains_key(name) && self.tasks@[name]
                        == start[name],
                forall|name: Seq<char>| #[trigger]
                    start.contains_key(name) && !self.tasks@.contains_key(name)
                        ==> start[name].group@ == group@,
                forall|k: int|
                    0 <= k < i ==> (#[trigger] self.tasks.listed()[k]).1.group@ != group@,
                self.next_serial == old(self).next_serial,
            decreases total - seen,
        {
            assert(all.take(seen + 1).drop_last() =~= all.take(seen as int));
            assert(self.tasks.listed()[i as int] == all[seen as int]);
            let ghost listed = self.tasks.listed();
            let entries = self.tasks.entries();
            if same(entries[i].1.group.as_str(), group) {
                let ghost before = self.tasks@;
                let taken = self.tasks.remove_at(i);
                count = count + 1;
                assert forall|k: int| seen + 1 <= k < all.len() implies self.tasks.listed()[k
                    - count] == #[trigger] all[k] by {
                    assert(listed[k - count + 1] == all[k]);
                }
            } else {
                i = i + 1;
            }
            seen = seen + 1;
        }
        assert(all.take(all.len() as int) =~= all);
        let entries = self.tasks.entries();
        assert(self@ =~= outside_group(old(self)@, group@)) by {
            assert forall|name: Seq<char>| #[trigger] self.tasks@.contains_key(name) implies
                self.tasks@[name].group@ != group@ by {
                assert(has_key(entries@, name));
                let k = choose|k: int|
                    0 <= k < entries@.len() && (#[trigger] entries@[k]).0@ == name;
                lemma_entry_in_map(entries@, k);
            }
        }
        count
    }

    /// What the job of a name does, to do it now.
    pub fn trigger(&self, name: &str) -> (r: Result<u64, String>)
        ensures
            match r {
                Ok(run) => self@.contains_key(name@) && self@[name@].run == run,
                Err(reason) => !self@.contains_key(name@) && reason@ == "任务不存在: "@ + name@,
            },
    {
        match self.tasks.get(name) {
            Some(entry) => Ok(entry.run),
            None => {
                let mut reason = owned("任务不存在: ");
                reason.append(name);
                Err(reason)
            },
        }
    }

    fn set_paused(&mut self, paused: bool)
        ensures
            final(self)@ == all_paused(old(self)@, paused),
            final(self).next_serial == old(self).next_serial,
    {
        let total: usize = self.tasks.len();
        let ghost start = self.tasks@;
        let listed = self.tasks.entries();
        let ghost all = listed@;
        let mut i: usize = 0;
        while i < total
            invariant
                i <= total,
                total == all.len(),
                keys_ascend(all),
                self.tasks.listed().len() == all.len(),
                self.tasks@.dom() == start.dom(),
                forall|k: int|
                    0 <= k < all.len() ==> (#[trigger] self.tasks.listed()[k]).0@ == all[k].0@,
                forall|k: int|
                    0 <= k < i ==> (#[trigger] self.tasks.listed()[k]).1@ == (EntryView {
                        paused,
                        ..all[k].1@
                    }),
                forall|k: int| i <= k < all.len() ==> self.tasks.listed()[k] == #[trigger] all[k],
                self.next_serial == old(self).next_serial,
            decreases total - i,
        {
            let ghost listed = self.tasks.listed();
            let entries = self.tasks.entries();
            let mut entry = entries[i].1.copy();
            entry.paused = paused;
            proof {
                assert(has_key(entries@, entries@[i as int].0@));
                assert(self.tasks@.contains_key(entries@[i as int].0@));
                assert(listed[i as int] == all[i as int]);
            }
            self.tasks.replace_at(i, entry);
            assert(self.tasks@.dom() =~= start.dom());
            i = i + 1;
        }
        let entries = self.tasks.entries();
        proof {
            let after = entries@;
            assert forall|name: Seq<char>| #[trigger] start.contains_key(name) implies
                self.tasks@[name]@ == (EntryView { paused, ..start[name]@ }) by {
                assert(has_key(all, name));
                let k = choose|k: int| 0 <= k < all.len() && (#[trigger] all[k]).0@ == name;
                lemma_entry_in_map(all, k);
                assert(after[k].0@ == name);
                lemma_entry_in_map(after, k);
            }
            assert(self@ =~= all_paused(old(self)@, paused));
        }
    }

    /// Pauses all jobs.
    pub fn pause_all(&mut self)
        ensures
            final(self)@ == all_paused(old(self)@, true),
            final(self).next_serial == old(self).next_serial,
            serials_given(old(self)@, old(self).next_serial) ==> serials_given(
                final(self)@,
                final(self).next_serial,
            ),
    {
        self.set_paused(true);
    }

    /// Lets all jobs run on.
    pub fn resume_all(&mut self)
        ensures
            final(self)@ == all_paused(old(self)@, false),
            final(self).next_serial == old(self).next_serial,
            serials_given(old(self)@, old(self).next_serial) ==> serials_given(
                final(self)@,
                final(self).next_serial,
            ),
    {
        self.set_paused(false);
    }

    /// The jobs in the order of their names.
    pub fn list(&self) -> (r: Vec<TaskInfo>)
        ensures
            lists_table(r@, self@),
    {
        let entries = self.tasks.entries();
        let ghost all = entries@;
        let mut out: Vec<TaskInfo> = Vec::new();
        let mut i: usize = 0;
        while i < entries.len()
            invariant
                i <= entries@.len(),
                all == entries@,
                out@.len() == i,
                forall|k: int|
                    0 <= k < i ==> info_matches(#[trigger] out@[k], all[k].0@, all[k].1@),
            decreases entries@.len() - i,
        {
            let entry = &entries[i].1;
            out.push(
                TaskInfo {
                    name: entries[i].0.clone(),
                    group: entry.group.clone(),
                    next_fire_ms: entry.next_fire,
                    last_fire_ms: entry.last_fire,
                },
            );
            i = i + 1;
        }
        proof {
            assert forall|a: int, b: int| 0 <= a < b < out@.len() implies text_less(
                (#[trigger] out@[a]).name@,
                (#[trigger] out@[b]).name@,
            ) by {
                assert(text_less(all[a].0@, all[b].0@));
            }
            assert forall|k: int| 0 <= k < out@.len() implies self@.contains_key(
                (#[trigger] out@[k]).name@,
            ) && info_matches(out@[k], out@[k].name@, self@[out@[k].name@]) by {
                lemma_entry_in_map(all, k);
            }
            assert forall|name: Seq<char>| #[trigger] self@.contains_key(name) implies exists|
                k: int,
            | 0 <= k < out@.len() && (#[trigger] out@[k]).name@ == name by {
                assert(has_key(all, name));
                let k = choose|k: int| 0 <= k < all.len() && (#[trigger] all[k]).0@ == name;
                assert(out@[k].name@ == name);
            }
        }
        out
    }

    fn place(&self, name: &str, serial: u64) -> (r: Option<usize>)
        ensures
            match r {
                Some(i) => on_table(self@, name@, serial) && i < self.tasks.listed().len()
                    && self.tasks.listed()[i as int].0@ == name@
                    && self.tasks.listed()[i as int].1@ == self@[name@],
                None => !on_table(self@, name@, serial),
            },
    {
        match self.tasks.find(name) {
            Some(i) => if self.tasks.entries()[i].1.serial == serial {
                Some(i)
            } else {
                None
            },
            None => None,
        }
    }

    fn change(&mut self, name: &str, i: usize, entry: TaskEntry)
        requires
            i < old(self).tasks.listed().len(),
            old(self).tasks.listed()[i as int].0@ == name@,
        ensures
            final(self)@ == old(self)@.insert(name@, entry@),
            final(self).next_serial == old(self).next_serial,
    {
        self.tasks.replace_at(i, entry);
        assert(self@ =~= old(self)@.insert(name@, entry@));
    }

    /// How long a job waits before it wakes up, given the next time of its hour; none
    /// where it ends.
    pub fn await_from(&mut self, name: &str, serial: u64, now_ms: i64, daily_ms: i64) -> (r: Option<
        i64,
    >)
        ensures
            final(self).next_serial == old(self).next_serial,
            serials_given(old(self)@, old(self).next_serial) ==> serials_given(
                final(self)@,
                final(self).next_serial,
            ),
            if on_table(old(self)@, name@, serial) {
                awaited(old(self)@, final(self)@, name@, now_ms, daily_ms, r)
            } else {
                r is None && final(self)@ == old(self)@
            },
    {
        match self.place(name, serial) {
            Some(i) => {
                let mut entry = self.tasks.entries()[i].1.copy();
                entry.next_fire = match entry.kind {
                    TaskKind::Daily { .. } => Some(daily_ms),
                    TaskKind::Repeat { .. } => entry.next_fire,
                    TaskKind::SingleAt { ts_ms } => Some(ts_ms),
                };
                let r: Option<i64> = wait_for(entry.kind, entry.last_fire, now_ms, daily_ms);
                self.change(name, i, entry);
                r
            },
            None => None,
        }
    }

    /// The next time of the hour of a job, by the local clock; zero where it has no
    /// hour.
    fn hour_of(&self, name: &str, serial: u64, now_ms: i64) -> (r: i64)
        ensures
            on_table(self@, name@, serial) ==> (match self@[name@].kind {
                TaskKind::Daily { hour } => may_come_daily(hour, now_ms, r),
                _ => r == 0,
            }),
    {
        match self.place(name, serial) {
            Some(i) => match self.tasks.entries()[i].1.kind {
                TaskKind::Daily { hour } => next_daily_ms(hour, now_ms),
                _ => 0,
            },
            None => 0,
        }
    }

    /// How long a job waits before it wakes up; none where it ends.
    pub fn delay_until_next(&mut self, name: &str, serial: u64, now_ms: i64) -> (r: Option<i64>)
        ensures
            final(self).next_serial == old(self).next_serial,
            serials_given(old(self)@, old(self).next_serial) ==> serials_given(
                final(self)@,
                final(self).next_serial,
            ),
            if on_table(old(self)@, name@, serial) {
                match old(self)@[name@].kind {
                    TaskKind::Daily { hour } => exists|daily_ms: i64| #[trigger]
                        may_come_daily(hour, now_ms, daily_ms) && awaited(
                            old(self)@,
                            final(self)@,
                            name@,
                            now_ms,
                            daily_ms,
                            r,
                        ),
                    _ => awaited(old(self)@, final(self)@, name@, now_ms, 0, r),
                }
            } else {
                r is None && final(self)@ == old(self)@
            },
    {
        let daily_ms: i64 = self.hour_of(name, serial, now_ms);
        self.await_from(name, serial, now_ms, daily_ms)
    }

    /// What a job does when it wakes up.
    pub fn wake(&self, name: &str, serial: u64) -> (r: Wake)
        ensures
            r == wake_of(self@, name@, serial),
    {
        match self.place(name, serial) {
            Some(i) => {
                let entry = &self.tasks.entries()[i].1;
                if entry.paused {
                    Wake::Paused(PAUSE_MILLIS)
                } else {
                    Wake::Fire(entry.run)
                }
            },
            None => Wake::Cancelled,
        }
    }

    /// Notes that a job begins to run.
    pub fn begin_run(&mut self, name: &str, serial: u64, fired_at: i64)
        ensures
            final(self).next_serial == old(self).next_serial,
            serials_given(old(self)@, old(self).next_serial) ==> serials_given(
                final(self)@,
                final(self).next_serial,
            ),
            final(self)@ == if on_table(old(self)@, name@, serial) {
                old(self)@.insert(
                    name@,
                    EntryView { last_fire: Some(fired_at), ..old(self)@[name@] },
                )
            } else {
                old(self)@
            },
    {
        match self.place(name, serial) {
            Some(i) => {
                let mut entry = self.tasks.entries()[i].1.copy();
                entry.last_fire = Some(fired_at);
                self.change(name, i, entry);
            },
            None => {},
        }
    }

    /// Notes that a job has run, whether it went well or not, given the next time of
    /// its hour; tells whether it runs again.
    pub fn finish_run(&mut self, name: &str, serial: u64, after_ms: i64, daily_ms: i64) -> (r: bool)
        ensures
            final(self).next_serial == old(self).next_serial,
            serials_given(old(self)@, old(self).next_serial) ==> serials_given(
                final(self)@,
                final(self).next_serial,
            ),
            if on_table(old(self)@, name@, serial) {
                ended(old(self)@, final(self)@, name@, after_ms, daily_ms, r)
            } else {
                !r && final(self)@ == old(self)@
            },
    {
        match self.place(name, serial) {
            Some(i) => {
                let mut entry = self.tasks.entries()[i].1.copy();
                let next: Option<i64> = compute_next_after(entry.kind, after_ms, daily_ms);
                entry.next_fire = next;
                self.change(name, i, entry);
                match next {
                    Some(_) => true,
                    None => false,
                }
            },
            None => false,
        }
    }

    /// Notes that a job has run, whether it went well or not; tells whether it runs
    /// again.
    pub fn end_run(&mut self, name: &str, serial: u64, after_ms: i64) -> (r: bool)
        ensures
            final(self).next_serial == old(self).next_serial,
            serials_given(old(self)@, old(self).next_serial) ==> serials_given(
                final(self)@,
                final(self).next_serial,
            ),
            if on_table(old(self)@, name@, serial) {
                match old(self)@[name@].kind {
                    TaskKind::Daily { hour } => exists|daily_ms: i64| #[trigger]
                        may_come_daily(hour, after_ms, daily_ms) && ended(
                            old(self)@,
                            final(self)@,
                            name@,
                            after_ms,
                            daily_ms,
                            r,
                        ),
                    _ => ended(old(self)@, final(self)@, name@, after_ms, 0, r),
                }
            } else {
                !r && final(self)@ == old(self)@
            },
    {
        let daily_ms: i64 = self.hour_of(name, serial, after_ms);
        self.finish_run(name, serial, after_ms, daily_ms)
    }
}

/// Whether a job waits as it should, given the next time of its hour.
pub open spec fn awaited(
    before: Map<Seq<char>, EntryView>,
    after: Map<Seq<char>, EntryView>,
    name: Seq<char>,
    now_ms: i64,
    daily_ms: i64,
    delay: Option<i64>,
) -> bool {
    let entry = before[name];
    &&& delay == delay_of(entry.kind, entry.last_fire, now_ms, daily_ms)
    &&& after == before.insert(
        name,
        EntryView { next_fire: shown_next(entry.kind, entry.next_fire, daily_ms), ..entry },
    )
}

/// Whether a job that has run goes on as it should, given the next time of its hour.
pub open spec fn ended(
    before: Map<Seq<char>, EntryView>,
    after: Map<Seq<char>, EntryView>,
    name: Seq<char>,
    after_ms: i64,
    daily_ms: i64,
    again: bool,
) -> bool {
    let next = next_of(before[name].kind, after_ms, daily_ms);
    &&& again == next is Some
    &&& after == before.insert(name, EntryView { next_fire: next, ..before[name] })
}

/// What is said of a job that fails.
pub fn failed_job_text(name: &str) -> (r: String)
    ensures
        r@ == "定时任务「"@ + name@ + "」的处理器 panic，本次已跳过并继续按表调度"@,
{
    let mut out = owned("定时任务「");
    out.append(name);
    out.append("」的处理器 panic，本次已跳过并继续按表调度");
    out
}

// ---------------------------------------------------------------------------
// laws

/// A job replaces the one of its name: the earlier one ends when it next wakes up, for
/// the new one has a serial that no job on the table has.
pub proof fn law_replaced_job_ends(
    tasks: Map<Seq<char>, EntryView>,
    next_serial: u64,
    name: Seq<char>,
    earlier: u64,
    entry: EntryView,
)
    requires
        serials_given(tasks, next_serial),
        on_table(tasks, name, earlier),
        entry.serial == next_serial,
    ensures
        wake_of(tasks.insert(name, entry), name, earlier) == Wake::Cancelled,
        forall|other: Seq<char>| #[trigger]
            tasks.contains_key(other) ==> tasks[other].serial != entry.serial,
{
}

/// A job that is taken off the table ends when it next wakes up.
pub proof fn law_removed_job_ends(tasks: Map<Seq<char>, EntryView>, name: Seq<char>, serial: u64)
    ensures
        wake_of(tasks.remove(name), name, serial) == Wake::Cancelled,
{
}

/// When a group is taken off the table none of its jobs is left and every other job
/// stays.
pub proof fn law_removing_a_group_takes_all_of_it(
    tasks: Map<Seq<char>, EntryView>,
    group: Seq<char>,
    name: Seq<char>,
)
    ensures
        outside_group(tasks, group).contains_key(name) ==> outside_group(tasks, group)[name].group
            != group,
        tasks.contains_key(name) && tasks[name].group != group ==> outside_group(
            tasks,
            group,
        ).contains_key(name) && outside_group(tasks, group)[name] == tasks[name],
{
}

/// A paused job does not run, and one that is let run on does again what it did.
pub proof fn law_pausing_is_undone(
    tasks: Map<Seq<char>, EntryView>,
    name: Seq<char>,
    serial: u64,
)
    requires
        on_table(tasks, name, serial),
    ensures
        wake_of(all_paused(tasks, true), name, serial) == Wake::Paused(PAUSE_MILLIS),
        wake_of(all_paused(all_paused(tasks, true), false), name, serial) == Wake::Fire(
            tasks[name].run,
        ),
{
}

/// A job that runs again and again runs at once at first, and then never sooner than
/// its interval after it last ran.
pub proof fn law_repeats_keep_their_distance(interval_secs: u64, last: i64, now_ms: i64, daily: i64)
    requires
        last != 0,
        last <= now_ms,
        now_ms + interval_secs * 1000 <= i64::MAX,
        now_ms >= 0,
    ensures
        delay_of(TaskKind::Repeat { interval_secs }, None, now_ms, daily) == Some(0i64),
        delay_of(TaskKind::Repeat { interval_secs }, Some(0), now_ms, daily) == Some(0i64),
        ({
            let delay = delay_of(TaskKind::Repeat { interval_secs }, Some(last), now_ms, daily);
            delay is Some && now_ms + delay->0 >= last + interval_secs * 1000
        }),
{
}

/// A daily job waits for the time of day: it is always still to come, and at most a
/// day away, whenever the time of day today is within a day before now.
pub proof fn law_daily_jobs_run_every_day(today_ms: i64, now_ms: i64)
    requires
        now_ms - DAY_MILLIS < today_ms <= now_ms + DAY_MILLIS,
        now_ms <= i64::MAX - DAY_MILLIS,
        now_ms >= i64::MIN + DAY_MILLIS,
    ensures
        now_ms < daily_after(today_ms, now_ms) <= now_ms + DAY_MILLIS,
{
}

/// A job that waits wakes up when it is to run: a daily one at the time of its hour, one
/// that runs again and again at its interval after it last ran, or at once where that is
/// past, and one that runs once at its time, if that is still to come.
pub proof fn law_jobs_wake_when_they_are_due(
    hour: u32,
    interval_secs: u64,
    ts_ms: i64,
    last: i64,
    now_ms: i64,
    daily_ms: i64,
)
    requires
        last != 0,
        0 <= now_ms,
        0 <= daily_ms,
        0 <= last,
        last + interval_secs * 1000 <= i64::MAX,
    ensures
        delay_of(TaskKind::Daily { hour }, Some(last), now_ms, daily_ms) matches Some(wait)
            && now_ms + wait == daily_ms,
        delay_of(TaskKind::Repeat { interval_secs }, Some(last), now_ms, daily_ms) matches Some(wait)
            && now_ms + wait == if last + interval_secs * 1000 > now_ms {
            last + interval_secs * 1000
        } else {
            now_ms as int
        },
        match delay_of(TaskKind::SingleAt { ts_ms }, Some(last), now_ms, daily_ms) {
            Some(wait) => now_ms + wait == ts_ms && wait > 0,
            None => ts_ms <= now_ms,
        },
{
}

/// What is listed as the next time of a job is when it next wakes up: after a run that
/// ended at `after_ms`, one that runs again and again waits until just then, as long as
/// that is still to come; a daily one waits for its hour; one that runs once is done.
pub proof fn law_the_next_time_is_kept(
    kind: TaskKind,
    after_ms: i64,
    now_ms: i64,
    daily_ms: i64,
)
    requires
        0 < after_ms <= now_ms,
        0 <= daily_ms,
        kind matches TaskKind::Repeat { interval_secs } ==> now_ms < after_ms + interval_secs * 1000
            <= i64::MAX,
    ensures
        next_of(kind, after_ms, daily_ms) is None <==> kind is SingleAt,
        next_of(kind, after_ms, daily_ms) matches Some(next) ==> delay_of(
            kind,
            Some(after_ms),
            now_ms,
            daily_ms,
        ) == Some((next - now_ms) as i64),
        !(kind is Repeat) ==> shown_next(kind, None, daily_ms) is Some && (delay_of(
            kind,
            None,
            now_ms,
            daily_ms,
        ) matches Some(wait) ==> shown_next(kind, None, daily_ms)->0 == now_ms + wait),
{
}

/// A job that was just put on the table is the one that runs under its name, and does what
/// it was made for; no other job is touched.
pub proof fn law_new_jobs_run(
    tasks: Map<Seq<char>, EntryView>,
    name: Seq<char>,
    serial: u64,
    group: Seq<char>,
    kind: TaskKind,
    run: u64,
    other: Seq<char>,
    other_serial: u64,
)
    requires
        other != name,
    ensures
        ({
            let after = tasks.insert(name, fresh(serial, group, kind, run));
            &&& wake_of(after, name, serial) == Wake::Fire(run)
            &&& wake_of(after, other, other_serial) == wake_of(tasks, other, other_serial)
            &&& after[name].group == group && after[name].kind == kind && after[name].last_fire
                is None && after[name].next_fire is None
        }),
{
}

/// A paused job looks again after a second.
pub proof fn law_paused_jobs_look_again(
    tasks: Map<Seq<char>, EntryView>,
    name: Seq<char>,
    serial: u64,
)
    requires
        on_table(tasks, name, serial),
    ensures
        tasks[name].paused ==> wake_of(tasks, name, serial) == Wake::Paused(1000),
        !tasks[name].paused ==> wake_of(tasks, name, serial) == Wake::Fire(tasks[name].run),
        wake_of(tasks, name, serial) != Wake::Cancelled,
{
}

/// The list of jobs shows of each its own group and its own times, and tells any two
/// jobs apart by name.
pub proof fn law_listed_jobs_are_the_jobs(
    infos: Seq<TaskInfo>,
    tasks: Map<Seq<char>, EntryView>,
    i: int,
    j: int,
)
    requires
        lists_table(infos, tasks),
        0 <= i < infos.len(),
        0 <= j < infos.len(),
        i != j,
    ensures
        infos[i].name@ != infos[j].name@,
        tasks.contains_key(infos[i].name@),
        infos[i].group@ == tasks[infos[i].name@].group,
        infos[i].next_fire_ms == tasks[infos[i].name@].next_fire,
        infos[i].last_fire_ms == tasks[infos[i].name@].last_fire,
{
    crate::collections::lemma_less_irreflexive(infos[i].name@);
    if i < j {
        assert(text_less(infos[i].name@, infos[j].name@));
    } else {
        assert(text_less(infos[j].name@, infos[i].name@));
    }
}

/// Waiting changes nothing of a job but the time that is shown for it, and nothing of any
/// other job; a daily job shows the time of its hour and waits for it, one that runs once
/// shows its time.
pub proof fn law_waiting_changes_the_shown_time_alone(
    before: Map<Seq<char>, EntryView>,
    after: Map<Seq<char>, EntryView>,
    name: Seq<char>,
    now_ms: i64,
    daily_ms: i64,
    delay: Option<i64>,
    other: Seq<char>,
)
    requires
        before.contains_key(name),
        other != name,
        awaited(before, after, name, now_ms, daily_ms, delay),
    ensures
        after.dom() == before.dom(),
        before.contains_key(other) ==> after[other] == before[other],
        after[name] == (EntryView { next_fire: after[name].next_fire, ..before[name] }),
        0 <= now_ms && 0 <= daily_ms ==> match before[name].kind {
            TaskKind::Daily { .. } => after[name].next_fire == Some(daily_ms) && (delay matches Some(
                wait,
            ) && now_ms + wait == daily_ms),
            TaskKind::Repeat { .. } => after[name].next_fire == before[name].next_fire && delay
                is Some,
            TaskKind::SingleAt { ts_ms } => after[name].next_fire == Some(ts_ms) && (delay is None
                <==> ts_ms <= now_ms),
        },
{
    assert(after.dom() =~= before.dom());
}

/// A job that has run goes on just where it is not one that runs once, shows when it runs
/// next, and no other job is touched.
pub proof fn law_running_changes_the_shown_time_alone(
    before: Map<Seq<char>, EntryView>,
    after: Map<Seq<char>, EntryView>,
    name: Seq<char>,
    after_ms: i64,
    daily_ms: i64,
    again: bool,
    other: Seq<char>,
)
    requires
        before.contains_key(name),
        other != name,
        ended(before, after, name, after_ms, daily_ms, again),
    ensures
        after.dom() == before.dom(),
        before.contains_key(other) ==> after[other] == before[other],
        after[name] == (EntryView { next_fire: after[name].next_fire, ..before[name] }),
        match before[name].kind {
            TaskKind::Daily { .. } => again && after[name].next_fire == Some(daily_ms),
            TaskKind::Repeat { interval_secs } => again && (0 <= after_ms && after_ms
                + interval_secs * 1000 <= i64::MAX ==> (after[name].next_fire matches Some(next)
                && next == after_ms + interval_secs * 1000)),
            TaskKind::SingleAt { .. } => !again && after[name].next_fire is None,
        },
{
    assert(after.dom() =~= before.dom());
}

/// As many jobs are taken off with a group as the group has.
pub proof fn law_jobs_of_a_group_are_counted(entries: Seq<(String, TaskEntry)>, group: Seq<char>)
    ensures
        group_count(entries, group) == entries.filter(
            |entry: (String, TaskEntry)| entry.1.group@ == group,
        ).len(),
    decreases entries.len(),
{
    reveal(Seq::filter);
    if entries.len() > 0 {
        law_jobs_of_a_group_are_counted(entries.drop_last(), group);
    }
}

/// A time beyond what can be told is the last that can, and any other is itself.
pub proof fn law_times_are_kept_in_range(n: int)
    ensures
        i64::MIN <= n <= i64::MAX ==> clamped(n) == n,
        n > i64::MAX ==> clamped(n) == i64::MAX,
        n < i64::MIN ==> clamped(n) == i64::MIN,
{
}

} // verus!
