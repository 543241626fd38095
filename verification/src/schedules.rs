//! The named game-loop schedules and their run intervals, which an admin
//! can change while the server runs.
use vstd::prelude::*;
use vstd::string::StringExecFns;
use crate::text::{chars_equal_str, str_chars};

verus! {

/// When a schedule of the game loop has work.
#[derive(Clone, Copy, Debug, PartialEq, Eq, Structural)]
pub enum ScheduleActivity {
    Always,
    OnlinePlayers,
    DueCrafting,
    DueGuns,
    DueProgrammator,
    DueHazards,
    ActiveGranular,
    ActiveAlive,
}

/// One schedule of the game loop: its name, when it has work and how
/// often it runs.
#[derive(Clone, Debug)]
pub struct GameSchedule {
    pub name: String,
    pub activity: ScheduleActivity,
    pub interval_ms: u64,
}

/// A change addressed to `name` reaches schedule `s`: the names are equal,
/// or `building_effects` names both the visual-effects and the crafting
/// schedules of buildings.
pub open spec fn schedule_matches(name: Seq<char>, s: Seq<char>) -> bool {
    s == name || (name == "building_effects"@ && (s == "building_visual_effects"@ || s == "building_crafting"@))
}

/// The schedules of the game loop.
pub struct ScheduleTable {
    pub schedules: Vec<GameSchedule>,
}

impl ScheduleTable {
    /// The interval of the first schedule called `name`.
    pub fn interval_of(&self, name: &str) -> (r: Option<u64>)
        ensures
            r is None <==> forall|i: int| 0 <= i < self.schedules@.len() ==> (#[trigger] self.schedules@[i]).name@ != name@,
            r matches Some(v) ==> exists|i: int| 0 <= i < self.schedules@.len() && (#[trigger] self.schedules@[i]).name@ == name@
                && self.schedules@[i].interval_ms == v,
    {
        let mut i: usize = 0;
        while i < self.schedules.len()
            invariant
                i <= self.schedules@.len(),
                forall|j: int| 0 <= j < i ==> (#[trigger] self.schedules@[j]).name@ != name@,
            decreases self.schedules@.len() - i,
        {
            let n = str_chars(self.schedules[i].name.as_str());
            if chars_equal_str(&n, name) {
                return Some(self.schedules[i].interval_ms);
            }
            i = i + 1;
        }
        None
    }

    /// Sets the interval of every schedule the name reaches (see
    /// `schedule_matches`); reports whether any was reached.
    pub fn set_schedule_interval(&mut self, name: &str, interval_ms: u64) -> (r: bool)
        ensures
            final(self).schedules@.len() == old(self).schedules@.len(),
            forall|i: int| 0 <= i < old(self).schedules@.len() ==> (#[trigger] final(self).schedules@[i]).name
                == old(self).schedules@[i].name && final(self).schedules@[i].activity == old(self).schedules@[i].activity
                && final(self).schedules@[i].interval_ms == if schedule_matches(
                name@,
                old(self).schedules@[i].name@,
            ) {
                interval_ms
            } else {
                old(self).schedules@[i].interval_ms
            },
            r == exists|i: int| 0 <= i < old(self).schedules@.len() && schedule_matches(name@, (#[trigger] old(self).schedules@[i]).name@),
    {
        let target = str_chars(name);
        let effects = chars_equal_str(&target, "building_effects");
        let mut updated = false;
        let mut i: usize = 0;
        while i < self.schedules.len()
            invariant
                target@ == name@,
                effects == (name@ == "building_effects"@),
                i <= self.schedules@.len(),
                self.schedules@.len() == old(self).schedules@.len(),
                forall|j: int| 0 <= j < old(self).schedules@.len() ==> (#[trigger] self.schedules@[j]).name
                    == old(self).schedules@[j].name && self.schedules@[j].activity == old(self).schedules@[j].activity,
                forall|j: int| 0 <= j < i ==> (#[trigger] self.schedules@[j]).interval_ms == if schedule_matches(
                    name@,
                    old(self).schedules@[j].name@,
                ) {
                    interval_ms
                } else {
                    old(self).schedules@[j].interval_ms
                },
                forall|j: int| i <= j < old(self).schedules@.len() ==> (#[trigger] self.schedules@[j]).interval_ms
                    == old(self).schedules@[j].interval_ms,
                updated == exists|j: int| 0 <= j < i && schedule_matches(name@, (#[trigger] old(self).schedules@[j]).name@),
            decreases self.schedules@.len() - i,
        {
            let s = str_chars(self.schedules[i].name.as_str());
            let hit = chars_equal_str(&s, name) || (effects && (chars_equal_str(&s, "building_visual_effects")
                || chars_equal_str(&s, "building_crafting")));
            if hit {
                let name_copy = self.schedules[i].name.clone();
                let activity = self.schedules[i].activity;
                self.schedules.set(i, GameSchedule { name: name_copy, activity, interval_ms });
                updated = true;
            }
            i = i + 1;
        }
        updated
    }
}

/// The configured run intervals of the game-loop schedules.
#[derive(Clone, Copy, Debug, PartialEq, Eq, Structural)]
pub struct ScheduleIntervals {
    pub hazards_ms: u64,
    pub physics_ms: u64,
    pub guns_ms: u64,
    pub programmator_ms: u64,
    pub alive_ms: u64,
    pub building_effects_ms: u64,
    pub hourly_damage_ms: u64,
}

fn schedule(name: &str, activity: ScheduleActivity, interval_ms: u64) -> (r: GameSchedule)
    ensures
        r.name@ == name@,
        r.activity == activity,
        r.interval_ms == interval_ms,
{
    GameSchedule { name: String::from_str(name), activity, interval_ms }
}

/// The schedules of the game loop, in running order, with the intervals
/// of the configuration; both building schedules run at the building
/// effects interval.
pub fn game_schedules(c: ScheduleIntervals) -> (r: ScheduleTable)
    ensures
        r.schedules@.len() == 8,
        r.schedules@[0].name@ == "hazards"@ && r.schedules@[0].activity == ScheduleActivity::DueHazards
            && r.schedules@[0].interval_ms == c.hazards_ms,
        r.schedules@[1].name@ == "physics"@ && r.schedules@[1].activity == ScheduleActivity::ActiveGranular
            && r.schedules@[1].interval_ms == c.physics_ms,
        r.schedules@[2].name@ == "guns"@ && r.schedules@[2].activity == ScheduleActivity::DueGuns
            && r.schedules@[2].interval_ms == c.guns_ms,
        r.schedules@[3].name@ == "programmator"@ && r.schedules@[3].activity == ScheduleActivity::DueProgrammator
            && r.schedules@[3].interval_ms == c.programmator_ms,
        r.schedules@[4].name@ == "alive"@ && r.schedules@[4].activity == ScheduleActivity::ActiveAlive
            && r.schedules@[4].interval_ms == c.alive_ms,
        r.schedules@[5].name@ == "building_visual_effects"@ && r.schedules@[5].activity == ScheduleActivity::OnlinePlayers
            && r.schedules@[5].interval_ms == c.building_effects_ms,
        r.schedules@[6].name@ == "building_crafting"@ && r.schedules@[6].activity == ScheduleActivity::DueCrafting
            && r.schedules@[6].interval_ms == c.building_effects_ms,
        r.schedules@[7].name@ == "hourly_damage"@ && r.schedules@[7].activity == ScheduleActivity::Always
            && r.schedules@[7].interval_ms == c.hourly_damage_ms,
{
    let mut v: Vec<GameSchedule> = Vec::new();
    v.push(schedule("hazards", ScheduleActivity::DueHazards, c.hazards_ms));
    v.push(schedule("physics", ScheduleActivity::ActiveGranular, c.physics_ms));
    v.push(schedule("guns", ScheduleActivity::DueGuns, c.guns_ms));
    v.push(schedule("programmator", ScheduleActivity::DueProgrammator, c.programmator_ms));
    v.push(schedule("alive", ScheduleActivity::ActiveAlive, c.alive_ms));
    v.push(schedule("building_visual_effects", ScheduleActivity::OnlinePlayers, c.building_effects_ms));
    v.push(schedule("building_crafting", ScheduleActivity::DueCrafting, c.building_effects_ms));
    v.push(schedule("hourly_damage", ScheduleActivity::Always, c.hourly_damage_ms));
    ScheduleTable { schedules: v }
}

} // verus!
