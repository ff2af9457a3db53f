//! What the writer of a save is told to do: the names of the four payloads,
//! the members of an archive after a save, and the steps that rotate the
//! backups before one.

use vstd::prelude::*;
use crate::text::{occurs_at, 
    chars_of, copy_text, dec_text, digit_char, digit_of, push_natural, push_text, string_of,
};

verus! {

/// The four payloads of a save.
#[derive(Clone, Copy, Debug, PartialEq, Eq, Structural)]
pub enum PayloadKind {
    FirstJson,
    SecondJson,
    LuaDatabase,
    TextStates,
}

/// `suffix` stands at the end of `s`.
pub open spec fn ends_with(s: Seq<char>, suffix: Seq<char>) -> bool {
    s.len() >= suffix.len() && s.subrange(s.len() - suffix.len(), s.len() as int) == suffix
}

/// `s` without its last `n` characters.
pub open spec fn without_end(s: Seq<char>, n: int) -> Seq<char> {
    s.take(s.len() - n)
}

/// The name that the payloads of a save share, from the name of its folder or
/// archive: the name without `.ntwtf.zip` or `.ntwtf` at its end.
pub open spec fn spec_base_name(file_name: Seq<char>) -> Seq<char> {
    if ends_with(file_name, ".ntwtf.zip"@) {
        without_end(file_name, 10)
    } else if ends_with(file_name, ".ntwtf"@) {
        without_end(file_name, 6)
    } else {
        file_name
    }
}

/// The name under which the editor keeps a save: as `spec_base_name`, and
/// without `.zip` at the end of any other archive's name.
pub open spec fn spec_session_name(file_name: Seq<char>) -> Seq<char> {
    if ends_with(file_name, ".ntwtf.zip"@) {
        without_end(file_name, 10)
    } else if ends_with(file_name, ".zip"@) {
        without_end(file_name, 4)
    } else if ends_with(file_name, ".ntwtf"@) {
        without_end(file_name, 6)
    } else {
        file_name
    }
}

/// What follows the base name in the name of a payload.
pub open spec fn payload_suffix(kind: PayloadKind) -> Seq<char> {
    match kind {
        PayloadKind::FirstJson => ".1st.ntwtf.json"@,
        PayloadKind::SecondJson => ".2nd.ntwtf.json"@,
        PayloadKind::LuaDatabase => ".ntwtf.lua"@,
        PayloadKind::TextStates => ".states.lua"@,
    }
}

/// The payload that a member of this name holds, if it holds one: the first of
/// the four whose name it is.
pub open spec fn spec_member_kind(name: Seq<char>, base: Seq<char>) -> Option<PayloadKind> {
    if name == base + payload_suffix(PayloadKind::FirstJson) {
        Some(PayloadKind::FirstJson)
    } else if name == base + payload_suffix(PayloadKind::SecondJson) {
        Some(PayloadKind::SecondJson)
    } else if name == base + payload_suffix(PayloadKind::LuaDatabase) {
        Some(PayloadKind::LuaDatabase)
    } else if name == base + payload_suffix(PayloadKind::TextStates) {
        Some(PayloadKind::TextStates)
    } else {
        None
    }
}

/// Whether `suffix` stands at the end of `s`.
pub fn has_suffix(s: &Vec<char>, suffix: &str) -> (r: bool)
    ensures
        r == ends_with(s@, suffix@),
{
    let t = chars_of(suffix);
    if s.len() < t.len() {
        return false;
    }
    let off = s.len() - t.len();
    let mut i: usize = 0;
    assert(s@.subrange(off as int, off + 0) =~= t@.take(0));
    while i < t.len()
        invariant
            i <= t.len(),
            off + t.len() == s.len(),
            t@ == suffix@,
            s@.subrange(off as int, off + i) == t@.take(i as int),
        decreases t.len() - i,
    {
        if s[off + i] != t[i] {
            assert(s@.subrange(off as int, s.len() as int)[i as int] != t@[i as int]);
            return false;
        }
        assert(s@.subrange(off as int, off + i + 1) =~= s@.subrange(off as int, off + i).push(
            s@[off + i],
        ));
        assert(t@.take(i + 1) =~= t@.take(i as int).push(t@[i as int]));
        i += 1;
    }
    assert(t@.take(t.len() as int) =~= t@);
    true
}

/// Whether the name is that of an archive: it ends in `.zip`.
pub fn is_archive(file_name: &str) -> (r: bool)
    ensures
        r == ends_with(file_name@, ".zip"@),
{
    let s = chars_of(file_name);
    has_suffix(&s, ".zip")
}

/// The name that the payloads of a save share.
pub fn base_name(file_name: &str) -> (r: String)
    ensures
        r@ == spec_base_name(file_name@),
{
    let s = chars_of(file_name);
    proof {
        reveal_strlit(".ntwtf.zip");
        reveal_strlit(".ntwtf");
    }
    if has_suffix(&s, ".ntwtf.zip") {
        string_of(&s, 0, s.len() - 10)
    } else if has_suffix(&s, ".ntwtf") {
        string_of(&s, 0, s.len() - 6)
    } else {
        let r = string_of(&s, 0, s.len());
        assert(r@ =~= file_name@);
        r
    }
}

/// The name under which the editor keeps a save.
pub fn session_name(file_name: &str) -> (r: String)
    ensures
        r@ == spec_session_name(file_name@),
{
    let s = chars_of(file_name);
    proof {
        reveal_strlit(".ntwtf.zip");
        reveal_strlit(".ntwtf");
        reveal_strlit(".zip");
    }
    if has_suffix(&s, ".ntwtf.zip") {
        string_of(&s, 0, s.len() - 10)
    } else if has_suffix(&s, ".zip") {
        string_of(&s, 0, s.len() - 4)
    } else if has_suffix(&s, ".ntwtf") {
        string_of(&s, 0, s.len() - 6)
    } else {
        let r = string_of(&s, 0, s.len());
        assert(r@ =~= file_name@);
        r
    }
}

/// What follows the base name in the name of a payload.
pub fn suffix_of(kind: PayloadKind) -> (r: &'static str)
    ensures
        r@ == payload_suffix(kind),
{
    match kind {
        PayloadKind::FirstJson => ".1st.ntwtf.json",
        PayloadKind::SecondJson => ".2nd.ntwtf.json",
        PayloadKind::LuaDatabase => ".ntwtf.lua",
        PayloadKind::TextStates => ".states.lua",
    }
}

/// The name of a payload of the save `base`.
pub fn payload_name(base: &str, kind: PayloadKind) -> (r: String)
    ensures
        r@ == base@ + payload_suffix(kind),
{
    let mut r = copy_text(base);
    push_text(&mut r, suffix_of(kind));
    r
}

/// The payload that a member of this name holds, if it holds one.
pub fn member_kind(name: &str, base: &str) -> (r: Option<PayloadKind>)
    ensures
        r == spec_member_kind(name@, base@),
{
    if crate::text::same_text(name, payload_name(base, PayloadKind::FirstJson).as_str()) {
        Some(PayloadKind::FirstJson)
    } else if crate::text::same_text(name, payload_name(base, PayloadKind::SecondJson).as_str()) {
        Some(PayloadKind::SecondJson)
    } else if crate::text::same_text(name, payload_name(base, PayloadKind::LuaDatabase).as_str()) {
        Some(PayloadKind::LuaDatabase)
    } else if crate::text::same_text(name, payload_name(base, PayloadKind::TextStates).as_str()) {
        Some(PayloadKind::TextStates)
    } else {
        None
    }
}

/// The bytes of the four payloads of a save.
#[derive(Debug, Clone, PartialEq, Default)]
pub struct Payloads {
    pub first_json: Vec<u8>,
    pub second_json: Vec<u8>,
    pub lua_database: Vec<u8>,
    pub text_states: Vec<u8>,
}

impl Payloads {
    /// The bytes of one payload.
    pub open spec fn bytes(self, kind: PayloadKind) -> Seq<u8> {
        match kind {
            PayloadKind::FirstJson => self.first_json@,
            PayloadKind::SecondJson => self.second_json@,
            PayloadKind::LuaDatabase => self.lua_database@,
            PayloadKind::TextStates => self.text_states@,
        }
    }

    /// The bytes of one payload.
    pub fn get(&self, kind: PayloadKind) -> (r: &Vec<u8>)
        ensures
            r@ == self.bytes(kind),
    {
        match kind {
            PayloadKind::FirstJson => &self.first_json,
            PayloadKind::SecondJson => &self.second_json,
            PayloadKind::LuaDatabase => &self.lua_database,
            PayloadKind::TextStates => &self.text_states,
        }
    }
}

/// The bytes that a member holds after a save: those of its payload where its
/// name is that of one, else the bytes it held.
pub open spec fn member_bytes(
    name: Seq<char>,
    held: Seq<u8>,
    base: Seq<char>,
    payloads: Payloads,
) -> Seq<u8> {
    match spec_member_kind(name, base) {
        Some(kind) => payloads.bytes(kind),
        None => held,
    }
}

/// The members of an archive after a save: the same names in the same order,
/// each with the bytes that `member_bytes` gives it.
pub open spec fn rewritten(
    members: Seq<(String, Vec<u8>)>,
    base: Seq<char>,
    payloads: Payloads,
) -> Seq<(Seq<char>, Seq<u8>)> {
    Seq::new(
        members.len(),
        |i: int| (members[i].0@, member_bytes(members[i].0@, members[i].1@, base, payloads)),
    )
}

/// The model of the members of an archive.
pub open spec fn members_view(members: Seq<(String, Vec<u8>)>) -> Seq<(Seq<char>, Seq<u8>)> {
    Seq::new(members.len(), |i: int| (members[i].0@, members[i].1@))
}

/// A copy of the bytes.
pub fn copy_bytes(bytes: &Vec<u8>) -> (r: Vec<u8>)
    ensures
        r@ == bytes@,
{
    let mut r: Vec<u8> = Vec::new();
    let mut i: usize = 0;
    while i < bytes.len()
        invariant
            i <= bytes.len(),
            r@ == bytes@.take(i as int),
        decreases bytes.len() - i,
    {
        r.push(bytes[i]);
        i += 1;
    }
    r
}

/// The members of an archive after a save. Each member keeps its name and its
/// place. A member with the name of one of the four payloads holds the new
/// bytes of that payload; any other member holds the bytes it held. No member
/// is added.
pub fn rewrite_members(members: Vec<(String, Vec<u8>)>, base: &str, payloads: &Payloads) -> (r:
    Vec<(String, Vec<u8>)>)
    ensures
        members_view(r@) == rewritten(members@, base@, *payloads),
{
    let mut out: Vec<(String, Vec<u8>)> = Vec::new();
    let ghost target = rewritten(members@, base@, *payloads);
    for entry in it: members
        invariant
            it.seq() == members@,
            target == rewritten(members@, base@, *payloads),
            out.len() == it.index(),
            forall|j: int|
                0 <= j < out.len() ==> (#[trigger] out@[j]).0@ == target[j].0 && out@[j].1@
                    == target[j].1,
    {
        let (name, held) = entry;
        let bytes = match member_kind(name.as_str(), base) {
            Some(kind) => copy_bytes(payloads.get(kind)),
            None => held,
        };
        out.push((name, bytes));
    }
    assert(members_view(out@) =~= target);
    out
}

/// What the writer sees before a save, of the save and of its two backups.
#[derive(Clone, Copy, Debug, PartialEq, Eq, Structural)]
pub struct BackupProbe {
    /// The first backup is there.
    pub backup_exists: bool,
    /// The second backup is there.
    pub older_exists: bool,
    /// The second backup is a folder.
    pub older_is_dir: bool,
    /// The save is a folder.
    pub live_is_dir: bool,
}

/// One step of the rotation of the backups.
#[derive(Clone, Copy, Debug, PartialEq, Eq, Structural)]
pub enum BackupStep {
    /// Remove the second backup, a folder, with what it holds.
    RemoveOlderDir,
    /// Remove the second backup, a file.
    RemoveOlderFile,
    /// Give the first backup the name of the second.
    RenameBackupToOlder,
    /// Make the folder of the first backup.
    CreateBackupDir,
    /// Copy each file of the save's folder into the folder of the first backup.
    CopyFilesIntoBackup,
    /// Copy the save, a file, to the first backup.
    CopyLiveToBackup,
}

/// Whether the save is given up when the step fails: where the first backup
/// cannot be made, be it its folder, the copy of a folder's files into it, or
/// the copy of a file. A failure to remove or to rename a stale backup is
/// borne.
pub open spec fn fatal(step: BackupStep) -> bool {
    step == BackupStep::CreateBackupDir || step == BackupStep::CopyFilesIntoBackup || step
        == BackupStep::CopyLiveToBackup
}

/// Whether the save is given up when the step fails.
pub fn is_fatal(step: BackupStep) -> (r: bool)
    ensures
        r == fatal(step),
{
    match step {
        BackupStep::CreateBackupDir => true,
        BackupStep::CopyFilesIntoBackup => true,
        BackupStep::CopyLiveToBackup => true,
        _ => false,
    }
}

/// The steps before a save: where there is a first backup, the second one is
/// removed and the first takes its name; then the save is copied to the first.
pub open spec fn backup_plan(probe: BackupProbe) -> Seq<BackupStep> {
    let clear = if probe.backup_exists && probe.older_exists {
        if probe.older_is_dir {
            seq![BackupStep::RemoveOlderDir]
        } else {
            seq![BackupStep::RemoveOlderFile]
        }
    } else {
        Seq::empty()
    };
    let rotate = if probe.backup_exists {
        seq![BackupStep::RenameBackupToOlder]
    } else {
        Seq::empty()
    };
    let copy = if probe.live_is_dir {
        seq![BackupStep::CreateBackupDir, BackupStep::CopyFilesIntoBackup]
    } else {
        seq![BackupStep::CopyLiveToBackup]
    };
    clear + rotate + copy
}

/// The steps that rotate the backups before a save. The steps whose failure
/// is borne come first and those whose failure gives the save up come last.
pub fn backup_steps(probe: BackupProbe) -> (r: Vec<BackupStep>)
    ensures
        r@ == backup_plan(probe),
        forall|i: int, j: int| 0 <= i < j < r@.len() && fatal(r@[i]) ==> fatal(r@[j]),
        r@.len() > 0 && fatal(r@.last()),
{
    let mut steps: Vec<BackupStep> = Vec::new();
    if probe.backup_exists {
        if probe.older_exists {
            if probe.older_is_dir {
                steps.push(BackupStep::RemoveOlderDir);
            } else {
                steps.push(BackupStep::RemoveOlderFile);
            }
        }
        steps.push(BackupStep::RenameBackupToOlder);
    }
    if probe.live_is_dir {
        steps.push(BackupStep::CreateBackupDir);
        steps.push(BackupStep::CopyFilesIntoBackup);
    } else {
        steps.push(BackupStep::CopyLiveToBackup);
    }
    assert(steps@ =~= backup_plan(probe));
    steps
}

/// What stands under one path: nothing, or a file or folder with its content.
pub struct Stored {
    pub present: bool,
    pub is_dir: bool,
    pub content: int,
}

/// The save and its two backups.
pub struct Slots {
    pub live: Stored,
    pub backup: Stored,
    pub older: Stored,
}

/// Nothing under a path.
pub open spec fn absent() -> Stored {
    Stored { present: false, is_dir: false, content: 0 }
}

/// What the writer sees of the slots.
pub open spec fn probe_of(s: Slots) -> BackupProbe {
    BackupProbe {
        backup_exists: s.backup.present,
        older_exists: s.older.present,
        older_is_dir: s.older.is_dir,
        live_is_dir: s.live.is_dir,
    }
}

/// The slots after a step that succeeds where it can.
pub open spec fn after_step(s: Slots, step: BackupStep) -> Slots {
    match step {
        BackupStep::RemoveOlderDir => if s.older.present && s.older.is_dir {
            Slots { older: absent(), ..s }
        } else {
            s
        },
        BackupStep::RemoveOlderFile => if s.older.present && !s.older.is_dir {
            Slots { older: absent(), ..s }
        } else {
            s
        },
        BackupStep::RenameBackupToOlder => if s.backup.present && !s.older.present {
            Slots { older: s.backup, backup: absent(), ..s }
        } else {
            s
        },
        BackupStep::CreateBackupDir => if !s.backup.present {
            Slots { backup: Stored { present: true, is_dir: true, content: 0 }, ..s }
        } else {
            s
        },
        BackupStep::CopyFilesIntoBackup => if s.backup.present && s.backup.is_dir
            && s.live.present && s.live.is_dir {
            Slots { backup: s.live, ..s }
        } else {
            s
        },
        BackupStep::CopyLiveToBackup => if s.live.present && !s.live.is_dir {
            Slots { backup: s.live, ..s }
        } else {
            s
        },
    }
}

/// The slots after the steps from index `i` on.
pub open spec fn after_steps(s: Slots, steps: Seq<BackupStep>, i: int) -> Slots
    decreases steps.len() - i,
{
    if 0 <= i < steps.len() {
        after_steps(after_step(s, steps[i]), steps, i + 1)
    } else {
        s
    }
}

/// The slots after the backups were rotated and the save was written anew with
/// `content`.
pub open spec fn after_save(s: Slots, content: int) -> Slots {
    let rotated = after_steps(s, backup_plan(probe_of(s)), 0);
    Slots { live: Stored { content: content, ..rotated.live }, ..rotated }
}

/// The rotation keeps two backups: after it the first backup holds what the
/// save held, and the second holds what the first held, where there was a
/// first; what the second held before that is gone.
pub proof fn lemma_rotation(s: Slots)
    requires
        s.live.present,
    ensures
        after_steps(s, backup_plan(probe_of(s)), 0).backup == s.live,
        after_steps(s, backup_plan(probe_of(s)), 0).live == s.live,
        s.backup.present ==> after_steps(s, backup_plan(probe_of(s)), 0).older == s.backup,
        !s.backup.present ==> after_steps(s, backup_plan(probe_of(s)), 0).older == s.older,
{
    reveal_with_fuel(after_steps, 6);
}

/// Two saves in a row, from a save without backups, leave two backups: the
/// first holds what the first save wrote, the second what the save held before
/// it.
pub proof fn lemma_two_saves(s: Slots, first: int, second: int)
    requires
        s.live.present,
        !s.backup.present,
        !s.older.present,
    ensures
        after_save(after_save(s, first), second).live.content == second,
        after_save(after_save(s, first), second).backup.present,
        after_save(after_save(s, first), second).backup.content == first,
        after_save(after_save(s, first), second).older.present,
        after_save(after_save(s, first), second).older.content == s.live.content,
{
    lemma_rotation(s);
    lemma_rotation(after_save(s, first));
}

/// After a third save nothing of the save's first content is kept.
pub proof fn lemma_three_saves(s: Slots, first: int, second: int, third: int)
    requires
        s.live.present,
        !s.backup.present,
        !s.older.present,
    ensures
        after_save(after_save(after_save(s, first), second), third).backup.content == second,
        after_save(after_save(after_save(s, first), second), third).older.content == first,
{
    lemma_rotation(s);
    lemma_rotation(after_save(s, first));
    lemma_rotation(after_save(after_save(s, first), second));
}

/// The two digits of a number below 100.
pub open spec fn two_digits(n: int) -> Seq<char> {
    seq![digit_char(n / 10), digit_char(n % 10)]
}

/// A time as the list of saves shows it: the days since the epoch, the hour
/// and the minute of the day, as `days-hh:mm`.
pub open spec fn time_text(secs: nat) -> Seq<char> {
    dec_text(secs / 86400) + seq!['-'] + two_digits(((secs % 86400) / 3600) as int) + seq![':']
        + two_digits((((secs % 86400) % 3600) / 60) as int)
}

/// The time `secs` seconds after the epoch, as the list of saves shows it.
pub fn format_system_time(secs: u64) -> (r: String)
    ensures
        r@ == time_text(secs as nat),
{
    let days = secs / 86400;
    let remaining = secs % 86400;
    let hours = remaining / 3600;
    let mins = (remaining % 3600) / 60;
    let mut r = String::new();
    push_natural(&mut r, days);
    r.push('-');
    r.push(digit_of((hours / 10) as u8));
    r.push(digit_of((hours % 10) as u8));
    r.push(':');
    r.push(digit_of((mins / 10) as u8));
    r.push(digit_of((mins % 10) as u8));
    assert(r@ =~= time_text(secs as nat));
    r
}

/// Whether an entry of the folder of saves is a save: a folder whose name ends
/// in `.ntwtf`, or a file whose name ends in `.ntwtf.zip`.
pub open spec fn spec_is_save(name: Seq<char>, is_dir: bool) -> bool {
    if is_dir {
        ends_with(name, ".ntwtf"@)
    } else {
        ends_with(name, ".ntwtf.zip"@)
    }
}

/// Whether an entry of the folder of saves is a save.
pub fn is_save_entry(name: &str, is_dir: bool) -> (r: bool)
    ensures
        r == spec_is_save(name@, is_dir),
{
    let s = chars_of(name);
    if is_dir {
        has_suffix(&s, ".ntwtf")
    } else {
        has_suffix(&s, ".ntwtf.zip")
    }
}

/// The text from `pos` on without the places where `pattern` stands, taken
/// from the left, none of them over another.
pub open spec fn without_pattern(s: Seq<char>, pattern: Seq<char>, pos: int) -> Seq<char>
    decreases s.len() - pos,
{
    if pos < 0 || pos >= s.len() {
        Seq::empty()
    } else if pattern.len() > 0 && pos + pattern.len() <= s.len() && s.subrange(
        pos,
        pos + pattern.len(),
    ) == pattern {
        without_pattern(s, pattern, pos + pattern.len())
    } else {
        seq![s[pos]] + without_pattern(s, pattern, pos + 1)
    }
}

/// The name under which the list of saves shows a save: its name without any
/// `.ntwtf.zip`, and then without any `.ntwtf`.
pub open spec fn spec_display_name(name: Seq<char>) -> Seq<char> {
    without_pattern(without_pattern(name, ".ntwtf.zip"@, 0), ".ntwtf"@, 0)
}

/// The text without the places where `pattern` stands.
pub fn remove_pattern(s: &Vec<char>, pattern: &str) -> (r: Vec<char>)
    ensures
        r@ == without_pattern(s@, pattern@, 0),
{
    let pat = chars_of(pattern);
    let mut out: Vec<char> = Vec::new();
    let mut pos: usize = 0;
    while pos < s.len()
        invariant
            pos <= s.len(),
            pat@ == pattern@,
            without_pattern(s@, pattern@, 0) == out@ + without_pattern(s@, pattern@, pos as int),
        decreases s.len() - pos,
    {
        if pat.len() > 0 && occurs_at(s, pos, &pat) {
            pos = pos + pat.len();
        } else {
            let ghost before = out@;
            out.push(s[pos]);
            assert(out@ + without_pattern(s@, pattern@, pos + 1) =~= before + without_pattern(
                s@,
                pattern@,
                pos as int,
            ));
            pos = pos + 1;
        }
    }
    assert(out@ + without_pattern(s@, pattern@, pos as int) =~= out@);
    out
}

/// The name under which the list of saves shows a save.
pub fn display_name(name: &str) -> (r: String)
    ensures
        r@ == spec_display_name(name@),
{
    let s = chars_of(name);
    let a = remove_pattern(&s, ".ntwtf.zip");
    let b = remove_pattern(&a, ".ntwtf");
    let r = string_of(&b, 0, b.len());
    assert(r@ =~= b@);
    r
}

} // verus!
