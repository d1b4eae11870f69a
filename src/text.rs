use vstd::prelude::*;
use vstd::string::{StrSliceExecFns, StringExecFns};

use crate::files::WFile;
use crate::net::FileId;
use crate::review::Instruction;

verus! {

// ---------------------------------------------------------------------------
// Numbers and times as text
// ---------------------------------------------------------------------------

pub open spec fn digit(d: nat) -> char {
    if d == 0 {
        '0'
    } else if d == 1 {
        '1'
    } else if d == 2 {
        '2'
    } else if d == 3 {
        '3'
    } else if d == 4 {
        '4'
    } else if d == 5 {
        '5'
    } else if d == 6 {
        '6'
    } else if d == 7 {
        '7'
    } else if d == 8 {
        '8'
    } else {
        '9'
    }
}

/// The decimal digits of `n`, without leading zeros.
pub open spec fn decimal_text(n: nat) -> Seq<char>
    decreases n,
{
    if n < 10 {
        seq![digit(n)]
    } else {
        decimal_text(n / 10).push(digit(n % 10))
    }
}

/// Relies on std's `ToString` for `u64`: the decimal digits, without sign
/// or leading zeros.
#[verifier::external_body]
fn decimal(n: u64) -> (r: String)
    ensures
        r@ == decimal_text(n as nat),
{
    n.to_string()
}

/// The text in which chrono shows the UTC time `secs` seconds after the Unix
/// epoch.
pub uninterp spec fn utc_text(secs: int) -> Seq<char>;

/// Times that chrono can show: about 253,000 years either side of the epoch,
/// inside chrono's dates (years -262,143 to 262,142).
pub open spec fn in_utc_range(secs: int) -> bool {
    -8_000_000_000_000 <= secs <= 8_000_000_000_000
}

/// Relies on chrono's `DateTime::<Utc>::from_timestamp` and the `Display` of
/// `DateTime<Utc>`: the text depends on the seconds alone, and there is one
/// for every number of seconds whose date is in chrono's range of years.
#[verifier::external_body]
fn utc_time(secs: i64) -> (r: Option<String>)
    ensures
        r matches Some(t) ==> t@ == utc_text(secs as int),
        in_utc_range(secs as int) ==> r is Some,
{
    match chrono::DateTime::<chrono::Utc>::from_timestamp(secs, 0) {
        Some(t) => Some(t.to_string()),
        None => None,
    }
}

// ---------------------------------------------------------------------------
// The command line
// ---------------------------------------------------------------------------

/// `s` without its line breaks.
pub open spec fn without_newlines(s: Seq<char>) -> Seq<char>
    decreases s.len(),
{
    if s.len() == 0 {
        s
    } else if s.last() == '\n' {
        without_newlines(s.drop_last())
    } else {
        without_newlines(s.drop_last()).push(s.last())
    }
}

fn strip_newlines(s: &str) -> (r: String)
    ensures
        r@ == without_newlines(s@),
{
    let mut r = String::from_str("");
    let n = s.unicode_len();
    proof {
        reveal_strlit("");
        assert(r@ =~= without_newlines(s@.take(0)));
    }
    for i in 0..n
        invariant
            n == s@.len(),
            r@ == without_newlines(s@.take(i as int)),
    {
        proof {
            assert(s@.take(i + 1).drop_last() =~= s@.take(i as int));
        }
        if s.get_char(i) != '\n' {
            let c = s.substring_char(i, i + 1);
            r.append(c);
            proof {
                assert(c@ =~= seq![s@[i as int]]);
                assert(r@ =~= without_newlines(s@.take(i as int)).push(s@[i as int]));
            }
        }
    }
    proof {
        assert(s@.take(n as int) =~= s@);
    }
    r
}

/// The words of one instruction, each followed by a space.
pub open spec fn instruction_text(i: Instruction) -> Seq<char> {
    match i {
        Instruction::Login { username } => "+login "@ + without_newlines(username@) + " "@,
        Instruction::DownloadItem { app_id, file_id } => "+workshop_download_item "@
            + decimal_text(app_id as nat) + " "@ + decimal_text(file_id as nat) + " "@,
        Instruction::Quit => "+quit "@,
    }
}

pub open spec fn instructions_text(s: Seq<Instruction>) -> Seq<char>
    decreases s.len(),
{
    if s.len() == 0 {
        seq![]
    } else {
        instructions_text(s.drop_last()) + instruction_text(s.last())
    }
}

/// The command line of the download tool: the tool's name and the
/// instructions, each word followed by a space.
pub fn command_line(instructions: &Vec<Instruction>) -> (r: String)
    ensures
        r@ == "steamcmd "@ + instructions_text(instructions@),
{
    let mut r = String::from_str("steamcmd ");
    let n = instructions.len();
    for i in 0..n
        invariant
            n == instructions@.len(),
            r@ == "steamcmd "@ + instructions_text(instructions@.take(i as int)),
    {
        proof {
            assert(instructions@.take(i + 1).drop_last() =~= instructions@.take(i as int));
        }
        let ghost before = r@;
        match &instructions[i] {
            Instruction::Login { username } => {
                r.append("+login ");
                let u = strip_newlines(username.as_str());
                r.append(u.as_str());
                r.append(" ");
            },
            Instruction::DownloadItem { app_id, file_id } => {
                r.append("+workshop_download_item ");
                let a = decimal(*app_id);
                r.append(a.as_str());
                r.append(" ");
                let f = decimal(*file_id);
                r.append(f.as_str());
                r.append(" ");
            },
            Instruction::Quit => {
                r.append("+quit ");
            },
        }
        proof {
            assert(r@ =~= before + instruction_text(instructions@[i as int]));
        }
    }
    proof {
        assert(instructions@.take(n as int) =~= instructions@);
    }
    r
}

// ---------------------------------------------------------------------------
// Exports of a collection's order
// ---------------------------------------------------------------------------

/// The record format of an export.
#[derive(Clone, Copy, Debug, PartialEq, Eq, Structural)]
pub enum SaveFormat {
    /// The identifier alone.
    Simple,
    /// Identifier, title, creation and update time, separated by tabs.
    Csv,
}

/// The name of the export of a collection: its identifier and title.
pub fn export_name(collection: &WFile) -> (r: String)
    ensures
        r@ == decimal_text(collection.file_id as nat) + "_"@ + collection.title@ + ".csv"@,
{
    let mut r = decimal(collection.file_id);
    r.append("_");
    r.append(collection.title.as_str());
    r.append(".csv");
    r
}

/// The full export record of a mod, given the text of its two times.
pub fn csv_record(file: &WFile, created: &str, updated: &str) -> (r: String)
    ensures
        r@ == decimal_text(file.file_id as nat) + "\t"@ + file.title@ + "\t"@ + created@ + "\t"@
            + updated@,
{
    let mut r = decimal(file.file_id);
    r.append("\t");
    r.append(file.title.as_str());
    r.append("\t");
    r.append(created);
    r.append("\t");
    r.append(updated);
    r
}

/// The export record of a mod in `format`. A full record needs both times
/// as text: there is one where both lie in chrono's range.
pub fn export_record(format: SaveFormat, file: &WFile) -> (r: Option<String>)
    ensures
        format == SaveFormat::Simple ==> (r matches Some(t) && t@ == decimal_text(
            file.file_id as nat,
        )),
        format == SaveFormat::Csv && in_utc_range(file.time_created as int) && in_utc_range(
            file.time_updated as int,
        ) ==> r is Some,
        format == SaveFormat::Csv && r is Some ==> r->0@ == decimal_text(file.file_id as nat)
            + "\t"@ + file.title@ + "\t"@ + utc_text(file.time_created as int) + "\t"@ + utc_text(
            file.time_updated as int,
        ),
{
    match format {
        SaveFormat::Simple => Some(decimal(file.file_id)),
        SaveFormat::Csv => {
            let created = utc_time(file.time_created);
            let updated = utc_time(file.time_updated);
            match (created, updated) {
                (Some(c), Some(u)) => Some(csv_record(file, c.as_str(), u.as_str())),
                _ => None,
            }
        },
    }
}

// ---------------------------------------------------------------------------
// The line shown for an item under review
// ---------------------------------------------------------------------------

pub open spec fn kind_text(file: &WFile) -> Seq<char> {
    if file.children is Some {
        "collection"@
    } else {
        "mod"@
    }
}

/// The line shown for an item, given the text of its two times.
pub fn summary_line(file: &WFile, created: &str, updated: &str) -> (r: String)
    ensures
        r@ == "Found "@ + kind_text(file) + " \t\t "@ + decimal_text(file.file_id as nat) + ": \t "@
            + file.title@ + " \t\t Created at: \t "@ + created@ + " \t\t Updated at: \t "@
            + updated@ + " "@,
{
    let mut r = String::from_str("Found ");
    if file.is_collection() {
        r.append("collection");
    } else {
        r.append("mod");
    }
    r.append(" \t\t ");
    let id = decimal(file.file_id);
    r.append(id.as_str());
    r.append(": \t ");
    r.append(file.title.as_str());
    r.append(" \t\t Created at: \t ");
    r.append(created);
    r.append(" \t\t Updated at: \t ");
    r.append(updated);
    r.append(" ");
    r
}

/// The line shown for an item, with its times as chrono writes them; there
/// is one where both times lie in chrono's range.
pub fn found_line(file: &WFile) -> (r: Option<String>)
    ensures
        in_utc_range(file.time_created as int) && in_utc_range(file.time_updated as int) ==> r is Some,
        r matches Some(t) ==> t@ == "Found "@ + kind_text(file) + " \t\t "@ + decimal_text(
            file.file_id as nat,
        ) + ": \t "@ + file.title@ + " \t\t Created at: \t "@ + utc_text(
            file.time_created as int,
        ) + " \t\t Updated at: \t "@ + utc_text(file.time_updated as int) + " "@,
{
    let created = utc_time(file.time_created);
    let updated = utc_time(file.time_updated);
    match (created, updated) {
        (Some(c), Some(u)) => Some(summary_line(file, c.as_str(), u.as_str())),
        _ => None,
    }
}

} // verus!
