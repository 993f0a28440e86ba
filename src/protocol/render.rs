//! The wire form of a record, as a specification: fields joined with commas,
//! text in double quotes, integers in decimal. Decoding a record's wire form
//! gives back exactly its field values.
use crate::fields::{
    all_digits, decimal_value, is_digit, opt_uint_in, split_fields, text_of, uint_in,
};
use crate::protocol::command::{
    CLASS, COMPETITOR, COMPETITOR_EXT, CORRECTION, HEARTBEAT, INIT, LINE_CROSSING, PASSING,
    PRAC_QUAL, RACE, RUN, SETTING, TRACK_DESCRIPTION,
};
use crate::protocol::{
    flag_of, group_start, lemma_command_tokens, section_groups, Class, Competitor, CompetitorExt,
    Correction, Flag, Heartbeat, Init, LineCrossing, Passing, PracticeQual, Race, Record, Run,
    Setting, TrackDescription, TrackSection,
};
use vstd::prelude::*;

verus! {

/// `s` holds no comma.
pub open spec fn no_comma(s: Seq<char>) -> bool {
    forall|i: int| 0 <= i < s.len() ==> #[trigger] s[i] != ','
}

/// The fields `fs` joined with commas.
pub open spec fn join_fields(fs: Seq<Seq<char>>) -> Seq<char>
    decreases fs.len(),
{
    if fs.len() == 0 {
        Seq::empty()
    } else if fs.len() == 1 {
        fs[0]
    } else {
        join_fields(fs.drop_last()) + seq![','] + fs.last()
    }
}

/// `t` in double quotes.
pub open spec fn quoted(t: Seq<char>) -> Seq<char> {
    seq!['"'] + t + seq!['"']
}

/// The decimal digit for `d < 10`.
pub open spec fn digit_char(d: nat) -> char {
    seq!['0', '1', '2', '3', '4', '5', '6', '7', '8', '9'][d as int]
}

/// `n` in decimal, without leading zeros.
pub open spec fn decimal(n: nat) -> Seq<char>
    decreases n,
{
    if n < 10 {
        seq![digit_char(n)]
    } else {
        decimal(n / 10).push(digit_char(n % 10))
    }
}

/// The fixed-width token of a flag.
pub open spec fn flag_token(flag: Flag) -> Seq<char> {
    match flag {
        Flag::NoFlag => "      "@,
        Flag::Green => "Green "@,
        Flag::Yellow => "Yellow"@,
        Flag::Red => "Red   "@,
        Flag::Finish => "Finish"@,
    }
}

/// The four fields of a track section.
pub open spec fn section_field(s: TrackSection, j: int) -> Seq<char> {
    if j == 0 {
        quoted(s.name@)
    } else if j == 1 {
        quoted(s.start@)
    } else if j == 2 {
        quoted(s.end@)
    } else {
        decimal(s.distance as nat)
    }
}

/// The section groups of a track description, in order.
#[verifier::opaque]
pub open spec fn section_fields(secs: Seq<TrackSection>) -> Seq<Seq<char>> {
    Seq::new(4 * secs.len(), |i: int| section_field(secs[i / 4], i % 4))
}

impl Record {
    /// The fields of this record's wire form, command token first.
    pub open spec fn wire_fields(self) -> Seq<Seq<char>> {
        match self {
            Record::Heartbeat(x) => seq![
                HEARTBEAT@,
                decimal(x.laps_to_go as nat),
                quoted(x.time_to_go@),
                quoted(x.time_of_day@),
                quoted(x.race_time@),
                quoted(flag_token(x.flag_status)),
            ],
            Record::Competitor(x) => seq![
                COMPETITOR@,
                quoted(x.registration_number@),
                quoted(x.number@),
                decimal(x.transponder_number as nat),
                quoted(x.first_name@),
                quoted(x.last_name@),
                quoted(x.nationality@),
                decimal(x.class_number as nat),
            ],
            Record::CompetitorExt(x) => seq![
                COMPETITOR_EXT@,
                quoted(x.registration_number@),
                quoted(x.number@),
                decimal(x.class_number as nat),
                quoted(x.first_name@),
                quoted(x.last_name@),
                quoted(x.nationality@),
                quoted(x.additional_data@),
            ],
            Record::Run(x) => seq![RUN@, decimal(x.number as nat), quoted(x.description@)],
            Record::Class(x) => seq![CLASS@, decimal(x.number as nat), quoted(x.description@)],
            Record::Setting(x) => seq![SETTING@, quoted(x.description@), quoted(x.value@)],
            Record::Race(x) => seq![
                RACE@,
                decimal(x.position as nat),
                quoted(x.registration_number@),
                match x.laps {
                    Some(v) => decimal(v as nat),
                    None => Seq::empty(),
                },
                quoted(x.total_time@),
            ],
            Record::PracticeQual(x) => seq![
                PRAC_QUAL@,
                decimal(x.position as nat),
                quoted(x.registration_number@),
                decimal(x.best_lap as nat),
                quoted(x.best_laptime@),
            ],
            Record::Init(x) => seq![INIT@, quoted(x.time@), quoted(x.date@)],
            Record::Passing(x) => seq![
                PASSING@,
                quoted(x.registration_number@),
                quoted(x.laptime@),
                quoted(x.total_time@),
            ],
            Record::Correction(x) => seq![
                CORRECTION@,
                quoted(x.registration_number@),
                quoted(x.number@),
                decimal(x.laps as nat),
                quoted(x.total_time@),
                quoted(x.correction@),
            ],
            Record::LineCrossing(x) => seq![
                LINE_CROSSING@,
                quoted(x.number@),
                quoted(x.timeline_number@),
                quoted(x.timeline_name@),
                quoted(x.date@),
                quoted(x.time@),
            ] + match x.driver_id {
                Some(d) => seq![decimal(d as nat)],
                None => Seq::empty(),
            } + match x.class_name {
                Some(c) => seq![quoted(c@)],
                None => Seq::empty(),
            },
            Record::TrackDescription(x) => seq![
                TRACK_DESCRIPTION@,
                quoted(x.name@),
                quoted(x.short_name@),
                quoted(x.distance@),
                decimal(x.sections@.len()),
            ] + section_fields(x.sections@),
        }
    }

    /// This record's wire form, without the line terminator.
    pub open spec fn wire_line(self) -> Seq<char> {
        join_fields(self.wire_fields())
    }

    /// The record can be sent as a line: no text holds a comma, and a line
    /// crossing with a class also has a driver.
    pub open spec fn has_wire_form(self) -> bool {
        &&& forall|i: int|
            1 <= i < self.wire_fields().len() ==> no_comma(#[trigger] self.wire_fields()[i])
        &&& self matches Record::LineCrossing(x) ==> (x.class_name is Some ==> x.driver_id is Some)
        &&& self matches Record::TrackDescription(x) ==> x.sections@.len() <= usize::MAX
    }
}

proof fn lemma_split_no_comma(s: Seq<char>)
    requires
        no_comma(s),
    ensures
        split_fields(s) == seq![s],
    decreases s.len(),
{
    if s.len() > 0 {
        lemma_split_no_comma(s.drop_last());
        assert(s.drop_last().push(s.last()) =~= s);
        assert(seq![s.drop_last()].update(0, s.drop_last().push(s.last())) =~= seq![s]);
    } else {
        assert(s =~= Seq::<char>::empty());
    }
}

proof fn lemma_split_after_comma(a: Seq<char>, t: Seq<char>)
    requires
        no_comma(t),
    ensures
        split_fields(a + seq![','] + t) == split_fields(a).push(t),
    decreases t.len(),
{
    let s = a + seq![','] + t;
    if t.len() == 0 {
        assert(s.drop_last() =~= a);
        assert(t =~= Seq::<char>::empty());
    } else {
        lemma_split_after_comma(a, t.drop_last());
        assert(s.drop_last() =~= a + seq![','] + t.drop_last());
        let prev = split_fields(a).push(t.drop_last());
        assert(t.drop_last().push(t.last()) =~= t);
        assert(prev.update(prev.len() - 1, prev.last().push(t.last())) =~= split_fields(a).push(t));
    }
}

/// Splitting fields joined with commas gives them back, when none holds a
/// comma.
pub proof fn lemma_split_join(fs: Seq<Seq<char>>)
    requires
        fs.len() >= 1,
        forall|i: int| 0 <= i < fs.len() ==> no_comma(#[trigger] fs[i]),
    ensures
        split_fields(join_fields(fs)) == fs,
    decreases fs.len(),
{
    if fs.len() == 1 {
        lemma_split_no_comma(fs[0]);
        assert(seq![fs[0]] =~= fs);
    } else {
        lemma_split_join(fs.drop_last());
        lemma_split_after_comma(join_fields(fs.drop_last()), fs.last());
        assert(fs.drop_last().push(fs.last()) =~= fs);
    }
}

proof fn lemma_digit_char(d: nat)
    requires
        d < 10,
    ensures
        is_digit(digit_char(d)),
        digit_char(d) as nat - '0' as nat == d,
{
    let digits = seq!['0', '1', '2', '3', '4', '5', '6', '7', '8', '9'];
    assert(digits[0] == '0' && digits[1] == '1' && digits[2] == '2' && digits[3] == '3');
    assert(digits[4] == '4' && digits[5] == '5' && digits[6] == '6' && digits[7] == '7');
    assert(digits[8] == '8' && digits[9] == '9');
}

/// A number written in decimal reads back as itself.
pub proof fn lemma_decimal_reads_back(n: nat)
    ensures
        decimal(n).len() > 0,
        all_digits(decimal(n)),
        decimal_value(decimal(n)) == n,
    decreases n,
{
    if n < 10 {
        lemma_digit_char(n);
        assert(seq![digit_char(n)].drop_last() =~= Seq::<char>::empty());
        assert(decimal_value(Seq::<char>::empty()) == 0);
        assert(decimal_value(decimal(n)) == decimal_value(Seq::<char>::empty()) * 10 + (
        digit_char(n) as nat - '0' as nat));
    } else {
        lemma_decimal_reads_back(n / 10);
        let d = decimal(n / 10);
        assert(d.push(digit_char(n % 10)).drop_last() =~= d);
        lemma_digit_char(n % 10);
        assert(decimal_value(decimal(n)) == decimal_value(d) * 10 + (digit_char(n % 10) as nat
            - '0' as nat));
        assert((n / 10) * 10 + n % 10 == n);
        assert forall|i: int| 0 <= i < decimal(n).len() implies is_digit(#[trigger] decimal(n)[i]) by {
            if i < d.len() {
                assert(decimal(n)[i] == d[i]);
            }
        }
    }
}

/// A number no larger than `max` written in decimal is a valid field.
pub proof fn lemma_uint_field(n: nat, max: nat)
    requires
        n <= max,
    ensures
        uint_in(decimal(n), max) == Some(n),
        opt_uint_in(decimal(n), max) == Some(Some(n)),
        no_comma(decimal(n)),
{
    lemma_decimal_reads_back(n);
    assert forall|i: int| 0 <= i < decimal(n).len() implies #[trigger] decimal(n)[i] != ',' by {
        assert(is_digit(decimal(n)[i]));
    }
}

/// Text in quotes reads back as itself.
pub proof fn lemma_text_field(t: Seq<char>)
    ensures
        text_of(quoted(t)) == t,
        no_comma(t) ==> no_comma(quoted(t)),
{
    let q = quoted(t);
    assert(q.subrange(1, q.len() - 1) =~= t);
    if no_comma(t) {
        assert forall|i: int| 0 <= i < q.len() implies #[trigger] q[i] != ',' by {
            if 1 <= i < q.len() - 1 {
                assert(q[i] == t[i - 1]);
            }
        }
    }
}

/// A flag's token reads back as that flag.
pub proof fn lemma_flag_field(flag: Flag)
    ensures
        flag_of(text_of(quoted(flag_token(flag)))) == Some(flag),
        no_comma(quoted(flag_token(flag))),
{
    reveal_strlit("      ");
    reveal_strlit("Green ");
    reveal_strlit("Yellow");
    reveal_strlit("Red   ");
    reveal_strlit("Finish");
    lemma_text_field(flag_token(flag));
    assert("      "@ =~= seq![' ', ' ', ' ', ' ', ' ', ' ']);
    assert("Green "@ =~= seq!['G', 'r', 'e', 'e', 'n', ' ']);
    assert("Yellow"@ =~= seq!['Y', 'e', 'l', 'l', 'o', 'w']);
    assert("Red   "@ =~= seq!['R', 'e', 'd', ' ', ' ', ' ']);
    assert("Finish"@ =~= seq!['F', 'i', 'n', 'i', 's', 'h']);
}

proof fn lemma_heartbeat_wire_line(x: Heartbeat)
    requires
        Record::Heartbeat(x).has_wire_form(),
    ensures
        Record::fault(split_fields(Record::Heartbeat(x).wire_line())) is None,
        Record::Heartbeat(x).decoded_from(split_fields(Record::Heartbeat(x).wire_line())),
{
    lemma_command_tokens();
    let fs = Record::Heartbeat(x).wire_fields();
    assert(no_comma(fs[0]));
    lemma_split_join(fs);
    lemma_uint_field(x.laps_to_go as nat, u32::MAX as nat);
    lemma_text_field(x.time_to_go@);
    lemma_text_field(x.time_of_day@);
    lemma_text_field(x.race_time@);
    lemma_flag_field(x.flag_status);
}

proof fn lemma_competitor_wire_line(x: Competitor)
    requires
        Record::Competitor(x).has_wire_form(),
    ensures
        Record::fault(split_fields(Record::Competitor(x).wire_line())) is None,
        Record::Competitor(x).decoded_from(split_fields(Record::Competitor(x).wire_line())),
{
    lemma_command_tokens();
    let fs = Record::Competitor(x).wire_fields();
    assert(no_comma(fs[0]));
    lemma_split_join(fs);
    lemma_text_field(x.registration_number@);
    lemma_text_field(x.number@);
    lemma_uint_field(x.transponder_number as nat, u32::MAX as nat);
    lemma_text_field(x.first_name@);
    lemma_text_field(x.last_name@);
    lemma_text_field(x.nationality@);
    lemma_uint_field(x.class_number as nat, u8::MAX as nat);
}

proof fn lemma_competitor_ext_wire_line(x: CompetitorExt)
    requires
        Record::CompetitorExt(x).has_wire_form(),
    ensures
        Record::fault(split_fields(Record::CompetitorExt(x).wire_line())) is None,
        Record::CompetitorExt(x).decoded_from(split_fields(Record::CompetitorExt(x).wire_line())),
{
    lemma_command_tokens();
    let fs = Record::CompetitorExt(x).wire_fields();
    assert(no_comma(fs[0]));
    lemma_split_join(fs);
    lemma_text_field(x.registration_number@);
    lemma_text_field(x.number@);
    lemma_uint_field(x.class_number as nat, u8::MAX as nat);
    lemma_text_field(x.first_name@);
    lemma_text_field(x.last_name@);
    lemma_text_field(x.nationality@);
    lemma_text_field(x.additional_data@);
}

proof fn lemma_run_wire_line(x: Run)
    requires
        Record::Run(x).has_wire_form(),
    ensures
        Record::fault(split_fields(Record::Run(x).wire_line())) is None,
        Record::Run(x).decoded_from(split_fields(Record::Run(x).wire_line())),
{
    lemma_command_tokens();
    let fs = Record::Run(x).wire_fields();
    assert(no_comma(fs[0]));
    lemma_split_join(fs);
    lemma_uint_field(x.number as nat, u8::MAX as nat);
    lemma_text_field(x.description@);
}

proof fn lemma_class_wire_line(x: Class)
    requires
        Record::Class(x).has_wire_form(),
    ensures
        Record::fault(split_fields(Record::Class(x).wire_line())) is None,
        Record::Class(x).decoded_from(split_fields(Record::Class(x).wire_line())),
{
    lemma_command_tokens();
    let fs = Record::Class(x).wire_fields();
    assert(no_comma(fs[0]));
    lemma_split_join(fs);
    lemma_uint_field(x.number as nat, u8::MAX as nat);
    lemma_text_field(x.description@);
}

proof fn lemma_setting_wire_line(x: Setting)
    requires
        Record::Setting(x).has_wire_form(),
    ensures
        Record::fault(split_fields(Record::Setting(x).wire_line())) is None,
        Record::Setting(x).decoded_from(split_fields(Record::Setting(x).wire_line())),
{
    lemma_command_tokens();
    let fs = Record::Setting(x).wire_fields();
    assert(no_comma(fs[0]));
    lemma_split_join(fs);
    lemma_text_field(x.description@);
    lemma_text_field(x.value@);
}

proof fn lemma_race_wire_line(x: Race)
    requires
        Record::Race(x).has_wire_form(),
    ensures
        Record::fault(split_fields(Record::Race(x).wire_line())) is None,
        Record::Race(x).decoded_from(split_fields(Record::Race(x).wire_line())),
{
    lemma_command_tokens();
    let fs = Record::Race(x).wire_fields();
    assert(no_comma(fs[0]));
    lemma_split_join(fs);
    lemma_uint_field(x.position as nat, u16::MAX as nat);
    lemma_text_field(x.registration_number@);
    if let Some(v) = x.laps {
        lemma_uint_field(v as nat, u32::MAX as nat);
    }
    lemma_text_field(x.total_time@);
}

proof fn lemma_practice_qual_wire_line(x: PracticeQual)
    requires
        Record::PracticeQual(x).has_wire_form(),
    ensures
        Record::fault(split_fields(Record::PracticeQual(x).wire_line())) is None,
        Record::PracticeQual(x).decoded_from(split_fields(Record::PracticeQual(x).wire_line())),
{
    lemma_command_tokens();
    let fs = Record::PracticeQual(x).wire_fields();
    assert(no_comma(fs[0]));
    lemma_split_join(fs);
    lemma_uint_field(x.position as nat, u16::MAX as nat);
    lemma_text_field(x.registration_number@);
    lemma_uint_field(x.best_lap as nat, u32::MAX as nat);
    lemma_text_field(x.best_laptime@);
}

proof fn lemma_init_wire_line(x: Init)
    requires
        Record::Init(x).has_wire_form(),
    ensures
        Record::fault(split_fields(Record::Init(x).wire_line())) is None,
        Record::Init(x).decoded_from(split_fields(Record::Init(x).wire_line())),
{
    lemma_command_tokens();
    let fs = Record::Init(x).wire_fields();
    assert(no_comma(fs[0]));
    lemma_split_join(fs);
    lemma_text_field(x.time@);
    lemma_text_field(x.date@);
}

proof fn lemma_passing_wire_line(x: Passing)
    requires
        Record::Passing(x).has_wire_form(),
    ensures
        Record::fault(split_fields(Record::Passing(x).wire_line())) is None,
        Record::Passing(x).decoded_from(split_fields(Record::Passing(x).wire_line())),
{
    lemma_command_tokens();
    let fs = Record::Passing(x).wire_fields();
    assert(no_comma(fs[0]));
    lemma_split_join(fs);
    lemma_text_field(x.registration_number@);
    lemma_text_field(x.laptime@);
    lemma_text_field(x.total_time@);
}

proof fn lemma_correction_wire_line(x: Correction)
    requires
        Record::Correction(x).has_wire_form(),
    ensures
        Record::fault(split_fields(Record::Correction(x).wire_line())) is None,
        Record::Correction(x).decoded_from(split_fields(Record::Correction(x).wire_line())),
{
    lemma_command_tokens();
    let fs = Record::Correction(x).wire_fields();
    assert(no_comma(fs[0]));
    lemma_split_join(fs);
    lemma_text_field(x.registration_number@);
    lemma_text_field(x.number@);
    lemma_uint_field(x.laps as nat, u32::MAX as nat);
    lemma_text_field(x.total_time@);
    lemma_text_field(x.correction@);
    let f = split_fields(Record::Correction(x).wire_line());
    assert(Correction::fault(f) is None);
}

proof fn lemma_line_crossing_wire_line(x: LineCrossing)
    requires
        Record::LineCrossing(x).has_wire_form(),
    ensures
        Record::fault(split_fields(Record::LineCrossing(x).wire_line())) is None,
        Record::LineCrossing(x).decoded_from(split_fields(Record::LineCrossing(x).wire_line())),
{
    lemma_command_tokens();
    let fs = Record::LineCrossing(x).wire_fields();
    assert(no_comma(fs[0]));
    lemma_split_join(fs);
    lemma_text_field(x.number@);
    lemma_text_field(x.timeline_number@);
    lemma_text_field(x.timeline_name@);
    lemma_text_field(x.date@);
    lemma_text_field(x.time@);
    if let Some(d) = x.driver_id {
        lemma_uint_field(d as nat, u8::MAX as nat);
    }
    if let Some(c) = x.class_name {
        lemma_text_field(c@);
    }
}

/// Section group `k` of a track description's wire form holds the fields of
/// its `k`-th section.
proof fn lemma_section_group(head: Seq<Seq<char>>, secs: Seq<TrackSection>, k: int)
    requires
        head.len() == 5,
        0 <= k < secs.len(),
    ensures
        section_fields(secs).len() == 4 * secs.len(),
        (head + section_fields(secs))[group_start(k)] == section_field(secs[k], 0),
        (head + section_fields(secs))[group_start(k) + 1] == section_field(secs[k], 1),
        (head + section_fields(secs))[group_start(k) + 2] == section_field(secs[k], 2),
        (head + section_fields(secs))[group_start(k) + 3] == section_field(secs[k], 3),
{
    reveal(section_fields);
    assert(section_fields(secs).len() == 4 * secs.len());
    assert((4 * k) / 4 == k && (4 * k + 1) / 4 == k && (4 * k + 2) / 4 == k && (4 * k + 3) / 4
        == k);
    assert((4 * k) % 4 == 0 && (4 * k + 1) % 4 == 1 && (4 * k + 2) % 4 == 2 && (4 * k + 3) % 4
        == 3);
}

/// A track section's fields read back as the section.
proof fn lemma_section_reads_back(fs: Seq<Seq<char>>, sec: TrackSection, at: int)
    requires
        0 <= at,
        at + 3 < fs.len(),
        fs[at] == section_field(sec, 0),
        fs[at + 1] == section_field(sec, 1),
        fs[at + 2] == section_field(sec, 2),
        fs[at + 3] == section_field(sec, 3),
    ensures
        sec.decoded_from(fs, at),
        uint_in(fs[at + 3], u32::MAX as nat) is Some,
{
    lemma_text_field(sec.name@);
    lemma_text_field(sec.start@);
    lemma_text_field(sec.end@);
    lemma_uint_field(sec.distance as nat, u32::MAX as nat);
}

/// The wire fields of a track description read back as it.
proof fn lemma_track_fields(x: TrackDescription, fs: Seq<Seq<char>>)
    requires
        x.sections@.len() <= usize::MAX,
        fs == seq![
            TRACK_DESCRIPTION@,
            quoted(x.name@),
            quoted(x.short_name@),
            quoted(x.distance@),
            decimal(x.sections@.len()),
        ] + section_fields(x.sections@),
    ensures
        TrackDescription::fault(fs) is None,
        x.decoded_from(fs),
{
    let n = x.sections@.len();
    let head = seq![
        TRACK_DESCRIPTION@,
        quoted(x.name@),
        quoted(x.short_name@),
        quoted(x.distance@),
        decimal(n),
    ];
    lemma_text_field(x.name@);
    lemma_text_field(x.short_name@);
    lemma_text_field(x.distance@);
    lemma_uint_field(n, usize::MAX as nat);
    assert(section_fields(x.sections@).len() == 4 * n) by {
        reveal(section_fields);
    }
    assert(section_groups(fs) == n);
    assert forall|k: int| 0 <= k < n implies (#[trigger] x.sections@[k]).decoded_from(
        fs,
        group_start(k),
    ) && uint_in(fs[group_start(k) + 3], u32::MAX as nat) is Some by {
        lemma_section_group(head, x.sections@, k);
        lemma_section_reads_back(fs, x.sections@[k], group_start(k));
    }
    if exists|k: int|
        0 <= k < section_groups(fs) && uint_in(#[trigger] fs[group_start(k) + 3], u32::MAX as nat)
            is None {
        let k = choose|k: int|
            0 <= k < section_groups(fs) && uint_in(#[trigger] fs[group_start(k) + 3], u32::MAX as nat)
                is None;
        assert(x.sections@[k].decoded_from(fs, group_start(k)));
    }
}

proof fn lemma_track_description_wire_line(x: TrackDescription)
    requires
        Record::TrackDescription(x).has_wire_form(),
    ensures
        Record::fault(split_fields(Record::TrackDescription(x).wire_line())) is None,
        Record::TrackDescription(x).decoded_from(
            split_fields(Record::TrackDescription(x).wire_line()),
        ),
{
    lemma_command_tokens();
    let fs = Record::TrackDescription(x).wire_fields();
    assert(no_comma(fs[0]));
    lemma_split_join(fs);
    lemma_track_fields(x, fs);
}

/// Decoding a record's wire form yields a record with exactly the field
/// values of the original, text and numbers alike: the line decodes, and the
/// decoded record is this one.
pub proof fn lemma_wire_line_decodes(rec: Record)
    requires
        rec.has_wire_form(),
    ensures
        Record::fault(split_fields(rec.wire_line())) is None,
        rec.decoded_from(split_fields(rec.wire_line())),
{
    match rec {
        Record::Heartbeat(x) => lemma_heartbeat_wire_line(x),
        Record::Competitor(x) => lemma_competitor_wire_line(x),
        Record::CompetitorExt(x) => lemma_competitor_ext_wire_line(x),
        Record::Run(x) => lemma_run_wire_line(x),
        Record::Class(x) => lemma_class_wire_line(x),
        Record::Setting(x) => lemma_setting_wire_line(x),
        Record::Race(x) => lemma_race_wire_line(x),
        Record::PracticeQual(x) => lemma_practice_qual_wire_line(x),
        Record::Init(x) => lemma_init_wire_line(x),
        Record::Passing(x) => lemma_passing_wire_line(x),
        Record::Correction(x) => lemma_correction_wire_line(x),
        Record::LineCrossing(x) => lemma_line_crossing_wire_line(x),
        Record::TrackDescription(x) => lemma_track_description_wire_line(x),
    }
}

} // verus!
