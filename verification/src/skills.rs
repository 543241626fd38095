//! Choosing the skill slot an administrator's `/skill` command writes to.
use vstd::prelude::*;
use vstd::string::StringExecFns;
use crate::text::{chars_equal_str, eq_ignore_ascii_case, parse_i32, parse_i64, spec_eq_ignore_ascii_case, spec_parse_i32, spec_parse_i64, str_chars};

verus! {

/// Skill slots a player can have (`0..34`).
pub const MAX_SKILL_SLOTS: i32 = 34;

/// One occupied skill slot: its index, the skill's wire code and level.
#[derive(Clone, Debug)]
pub struct SkillSlot {
    pub slot: i32,
    pub code: String,
    pub level: i32,
}

/// A player's skills by slot, and how many slots are unlocked.
#[derive(Clone, Debug)]
pub struct SkillSlots {
    pub skills: Vec<SkillSlot>,
    pub total_slots: i32,
}

/// No slot is occupied twice.
pub open spec fn distinct_slots(s: Seq<SkillSlot>) -> bool {
    forall|i: int, j: int| 0 <= i < j < s.len() ==> (#[trigger] s[i]).slot != (#[trigger] s[j]).slot
}

/// Slot `slot` is occupied.
pub open spec fn slot_taken(s: Seq<SkillSlot>, slot: int) -> bool {
    exists|i: int| 0 <= i < s.len() && (#[trigger] s[i]).slot == slot
}

/// Slot `slot` is a valid slot holding the skill `code`.
pub open spec fn slot_holds(s: Seq<SkillSlot>, slot: int, code: Seq<char>) -> bool {
    0 <= slot < MAX_SKILL_SLOTS && exists|i: int|
        0 <= i < s.len() && (#[trigger] s[i]).slot == slot && s[i].code@ == code
}

/// `total` clamped to `0..=34`.
pub open spec fn clamp_slots(total: i32) -> int {
    if total < 0 {
        0
    } else if total > MAX_SKILL_SLOTS {
        MAX_SKILL_SLOTS as int
    } else {
        total as int
    }
}

/// The slot an admin skill edit goes to: the explicit slot if given; else a
/// valid slot already holding the skill; else the lowest free unlocked
/// slot; `None` when every unlocked slot is taken. (Which of several slots
/// holding the skill is picked is left open, as with an unordered map.)
pub fn choose_admin_skill_slot(skills: &SkillSlots, code: &str, explicit_slot: Option<i32>) -> (r:
    Option<i32>)
    requires
        distinct_slots(skills.skills@),
    ensures
        explicit_slot is Some ==> r == explicit_slot,
        explicit_slot is None && (exists|s: int| slot_holds(skills.skills@, s, code@)) ==> (
        r matches Some(s) && slot_holds(skills.skills@, s as int, code@)),
        explicit_slot is None && !(exists|s: int| slot_holds(skills.skills@, s, code@)) ==> (
        match r {
            Some(s) => 0 <= s < clamp_slots(skills.total_slots) && !slot_taken(
                skills.skills@,
                s as int,
            ) && forall|t: int| 0 <= t < s ==> #[trigger] slot_taken(skills.skills@, t),
            None => forall|t: int|
                0 <= t < clamp_slots(skills.total_slots) ==> #[trigger] slot_taken(
                    skills.skills@,
                    t,
                ),
        }),
{
    if let Some(slot) = explicit_slot {
        return Some(slot);
    }
    let code_chars = str_chars(code);
    let mut i: usize = 0;
    while i < skills.skills.len()
        invariant
            i <= skills.skills@.len(),
            explicit_slot is None,
            code_chars@ == code@,
            forall|j: int|
                0 <= j < i ==> !(0 <= (#[trigger] skills.skills@[j]).slot < MAX_SKILL_SLOTS
                    && skills.skills@[j].code@ == code@),
        decreases skills.skills@.len() - i,
    {
        let entry = &skills.skills[i];
        if entry.slot >= 0 && entry.slot < MAX_SKILL_SLOTS && chars_equal_str(
            &code_chars,
            entry.code.as_str(),
        ) {
            assert(slot_holds(skills.skills@, entry.slot as int, code@));
            return Some(entry.slot);
        }
        i = i + 1;
    }
    assert(!(exists|s: int| slot_holds(skills.skills@, s, code@)));
    let limit = if skills.total_slots < 0 {
        0
    } else if skills.total_slots > MAX_SKILL_SLOTS {
        MAX_SKILL_SLOTS
    } else {
        skills.total_slots
    };
    let mut slot: i32 = 0;
    while slot < limit
        invariant
            0 <= slot <= limit,
            explicit_slot is None,
            !(exists|s: int| slot_holds(skills.skills@, s, code@)),
            limit == clamp_slots(skills.total_slots),
            forall|t: int| 0 <= t < slot ==> #[trigger] slot_taken(skills.skills@, t),
        decreases limit - slot,
    {
        let mut taken = false;
        let mut k: usize = 0;
        while k < skills.skills.len()
            invariant
                k <= skills.skills@.len(),
                taken == exists|j: int| 0 <= j < k && (#[trigger] skills.skills@[j]).slot == slot,
            decreases skills.skills@.len() - k,
        {
            if skills.skills[k].slot == slot {
                taken = true;
            }
            k = k + 1;
        }
        if !taken {
            return Some(slot);
        }
        slot = slot + 1;
    }
    None
}

/// The entries an admin skill edit keeps: those in other slots holding
/// other skills.
pub open spec fn kept_skills(s: Seq<SkillSlot>, slot: int, code: Seq<char>) -> Seq<SkillSlot>
    decreases s.len(),
{
    if s.len() == 0 {
        Seq::empty()
    } else {
        let rest = kept_skills(s.drop_last(), slot, code);
        let e = s.last();
        if e.slot != slot && e.code@ != code {
            rest.push(e)
        } else {
            rest
        }
    }
}

/// `total` raised to at least `lo` and capped at 34 slots.
pub open spec fn clamp_total(total: i32, lo: int) -> int {
    if total < lo {
        lo
    } else if total > MAX_SKILL_SLOTS {
        MAX_SKILL_SLOTS as int
    } else {
        total as int
    }
}

proof fn lemma_kept_skills(s: Seq<SkillSlot>, slot: int, code: Seq<char>)
    requires
        distinct_slots(s),
    ensures
        distinct_slots(kept_skills(s, slot, code)),
        forall|i: int| 0 <= i < kept_skills(s, slot, code).len() ==> (#[trigger] kept_skills(s, slot, code)[i]).slot != slot
            && kept_skills(s, slot, code)[i].code@ != code
            && exists|j: int| 0 <= j < s.len() && s[j] == kept_skills(s, slot, code)[i],
    decreases s.len(),
{
    if s.len() > 0 {
        let rest = s.drop_last();
        assert(distinct_slots(rest)) by {
            assert forall|i: int, j: int| 0 <= i < j < rest.len() implies (#[trigger] rest[i]).slot != (#[trigger] rest[j]).slot by {
                assert(rest[i] == s[i] && rest[j] == s[j]);
            }
        }
        lemma_kept_skills(rest, slot, code);
        let k = kept_skills(rest, slot, code);
        let out = kept_skills(s, slot, code);
        assert forall|i: int| 0 <= i < out.len() implies (#[trigger] out[i]).slot != slot
            && out[i].code@ != code
            && exists|j: int| 0 <= j < s.len() && s[j] == out[i] by {
            if i < k.len() {
                assert(out[i] == k[i]);
                let j = choose|j: int| 0 <= j < rest.len() && rest[j] == k[i];
                assert(s[j] == rest[j]);
            } else {
                assert(out[i] == s.last());
                assert(s[s.len() - 1] == s.last());
            }
        }
        assert forall|i: int, j: int| 0 <= i < j < out.len() implies (#[trigger] out[i]).slot != (#[trigger] out[j]).slot by {
            if j < k.len() {
                assert(out[i] == k[i] && out[j] == k[j]);
            } else {
                assert(out[i] == k[i]);
                assert(out[j] == s.last());
                let m = choose|m: int| 0 <= m < rest.len() && rest[m] == k[i];
                assert(s[m] == rest[m]);
                assert(s[s.len() - 1] == s.last());
            }
        }
    }
}

/// An admin sets skill `code` to `level` in slot `slot`: every other entry
/// of that skill and whatever held the slot go, the new entry comes last,
/// and enough slots are unlocked to reach it (capped at 34).
pub fn set_admin_skill(skills: &mut SkillSlots, code: &str, level: i32, slot: i32)
    requires
        distinct_slots(old(skills).skills@),
        0 <= slot < MAX_SKILL_SLOTS,
    ensures
        distinct_slots(final(skills).skills@),
        final(skills).skills@.len() == kept_skills(old(skills).skills@, slot as int, code@).len() + 1,
        final(skills).skills@.take(final(skills).skills@.len() - 1) == kept_skills(old(skills).skills@, slot as int, code@),
        final(skills).skills@.last().slot == slot,
        final(skills).skills@.last().code@ == code@,
        final(skills).skills@.last().level == level,
        forall|i: int| 0 <= i < final(skills).skills@.len() - 1 ==> (#[trigger] final(skills).skills@[i]).code@ != code@
            && final(skills).skills@[i].slot != slot,
        final(skills).total_slots == clamp_total(old(skills).total_slots, slot + 1),
{
    let ghost old_skills = skills.skills@;
    let code_chars = str_chars(code);
    let mut kept: Vec<SkillSlot> = Vec::new();
    let mut i: usize = 0;
    while i < skills.skills.len()
        invariant
            skills.skills@ == old_skills,
            code_chars@ == code@,
            i <= old_skills.len(),
            kept@ == kept_skills(old_skills.take(i as int), slot as int, code@),
        decreases old_skills.len() - i,
    {
        proof {
            assert(old_skills.take(i as int + 1).drop_last() == old_skills.take(i as int));
            assert(old_skills.take(i as int + 1).last() == old_skills[i as int]);
        }
        let e = &skills.skills[i];
        if e.slot != slot && !chars_equal_str(&code_chars, e.code.as_str()) {
            let copy = SkillSlot { slot: e.slot, code: e.code.clone(), level: e.level };
            kept.push(copy);
        }
        i = i + 1;
    }
    proof {
        assert(old_skills.take(old_skills.len() as int) == old_skills);
        lemma_kept_skills(old_skills, slot as int, code@);
    }
    let ghost k = kept@;
    kept.push(SkillSlot { slot, code: code.to_owned(), level });
    proof {
        assert(kept@.take(kept@.len() - 1) == k);
        assert forall|i: int| 0 <= i < kept@.len() - 1 implies (#[trigger] kept@[i]).code@ != code@ && kept@[i].slot != slot by {
            assert(kept@[i] == k[i]);
        }
        assert forall|a: int, b: int| 0 <= a < b < kept@.len() implies (#[trigger] kept@[a]).slot != (#[trigger] kept@[b]).slot by {
            assert(kept@[a] == k[a]);
            if b < k.len() {
                assert(kept@[b] == k[b]);
            }
        }
    }
    skills.skills = kept;
    skills.total_slots = if skills.total_slots < slot + 1 {
        slot + 1
    } else if skills.total_slots > MAX_SKILL_SLOTS {
        MAX_SKILL_SLOTS
    } else {
        skills.total_slots
    };
}

/// The usage text of `/skill`.
pub const CMD_USAGE_SKILL: &'static str = "Использование: /skill ИМЯ|me CODE LEVEL [SLOT] [EXP]. Коды: /skill codes";

/// The notice for a level that is not a whole number in `1..=i32::MAX`.
pub const SKILL_LEVEL_ERROR: &'static str = "LEVEL должен быть целым числом от 1 до 2147483647";

/// The notice for a slot outside `0..34`.
pub const SKILL_SLOT_ERROR: &'static str = "SLOT должен быть целым числом от 0 до 33";

/// What `/skill …` asks for.
#[derive(Debug, PartialEq, Eq)]
pub enum SkillCommand<'a> {
    /// `/skill codes` or `/skill help` (any case): list the skill codes.
    Codes,
    /// Fewer than three arguments.
    Usage,
    /// `/skill TARGET CODE LEVEL [SLOT] [EXP]`, the words as given.
    Edit { target: &'a str, code: &'a str, level: &'a str, slot: Option<&'a str>, exp: Option<&'a str> },
}

pub open spec fn spec_skill_command<'a>(args: Seq<&'a str>) -> SkillCommand<'a> {
    if args.len() > 0 && (spec_eq_ignore_ascii_case(args[0]@, "codes"@) || spec_eq_ignore_ascii_case(args[0]@, "help"@)) {
        SkillCommand::Codes
    } else if args.len() < 3 {
        SkillCommand::Usage
    } else {
        SkillCommand::Edit {
            target: args[0],
            code: args[1],
            level: args[2],
            slot: if args.len() > 3 { Some(args[3]) } else { None },
            exp: if args.len() > 4 { Some(args[4]) } else { None },
        }
    }
}

/// Reads the words of `/skill`.
pub fn skill_command<'a>(args: &Vec<&'a str>) -> (r: SkillCommand<'a>)
    ensures
        r == spec_skill_command(args@),
{
    if args.len() > 0 && (eq_ignore_ascii_case(args[0], "codes") || eq_ignore_ascii_case(args[0], "help")) {
        return SkillCommand::Codes;
    }
    if args.len() < 3 {
        return SkillCommand::Usage;
    }
    SkillCommand::Edit {
        target: args[0],
        code: args[1],
        level: args[2],
        slot: if args.len() > 3 { Some(args[3]) } else { None },
        exp: if args.len() > 4 { Some(args[4]) } else { None },
    }
}

/// The level of `/skill`: a whole number in `1..=i32::MAX` as `i64::from_str`
/// reads it.
pub fn skill_level(arg: &str) -> (r: Option<i32>)
    ensures
        r == match spec_parse_i64(arg@) {
            Some(v) => if 1 <= v <= i32::MAX { Some(v as i32) } else { None },
            None => None,
        },
{
    match parse_i64(arg) {
        Some(v) => if 1 <= v && v <= i32::MAX as i64 { Some(v as i32) } else { None },
        None => None,
    }
}

/// The optional slot of `/skill`: absent, or a whole number in `0..34`;
/// `Err` for anything else.
pub fn skill_slot(arg: Option<&str>) -> (r: Result<Option<i32>, ()>)
    ensures
        r == match arg {
            None => Ok(None),
            Some(a) => match spec_parse_i32(a@) {
                Some(v) => if 0 <= v < MAX_SKILL_SLOTS { Ok(Some(v)) } else { Err(()) },
                None => Err(()),
            },
        },
{
    match arg {
        None => Ok(None),
        Some(a) => match parse_i32(a) {
            Some(v) => if 0 <= v && v < MAX_SKILL_SLOTS { Ok(Some(v)) } else { Err(()) },
            None => Err(()),
        },
    }
}


/// `code=name` of each skill, `, `-separated.
pub open spec fn spec_skill_codes_help(skills: Seq<(&str, &str)>) -> Seq<char>
    decreases skills.len(),
{
    if skills.len() == 0 {
        Seq::empty()
    } else {
        let prev = spec_skill_codes_help(skills.drop_last());
        let sep = if skills.len() > 1 {
            ", "@
        } else {
            Seq::empty()
        };
        prev + sep + skills.last().0@ + "="@ + skills.last().1@
    }
}

/// The help line of `/skill codes`: each skill's code and name (`skills`,
/// in the order of the skill list), as `code=name`, `, `-separated.
pub fn admin_skill_codes_help(skills: &Vec<(&str, &str)>) -> (r: String)
    ensures
        r@ == spec_skill_codes_help(skills@),
{
    let mut out = String::new();
    let mut i: usize = 0;
    while i < skills.len()
        invariant
            i <= skills@.len(),
            out@ == spec_skill_codes_help(skills@.take(i as int)),
        decreases skills@.len() - i,
    {
        let ghost before = out@;
        proof {
            assert(skills@.take(i + 1).drop_last() =~= skills@.take(i as int));
            assert(skills@.take(i + 1).last() == skills@[i as int]);
        }
        if i > 0 {
            out.append(", ");
        }
        let (code, name) = skills[i];
        out.append(code);
        out.append("=");
        out.append(name);
        proof {
            let sep = if i + 1 > 1 { ", "@ } else { Seq::<char>::empty() };
            assert(out@ =~= before + sep + code@ + "="@ + name@);
        }
        i = i + 1;
    }
    proof {
        assert(skills@.take(skills@.len() as int) =~= skills@);
    }
    out
}

} // verus!
