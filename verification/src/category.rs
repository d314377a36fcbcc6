//! The closed sets of categories and regions, their stored codes and the
//! parsers that turn a name into a category.

use vstd::prelude::*;
use vstd::string::*;
use crate::text::{decimal_text, nat_text, str_eq};

verus! {

/// The categories in which a run of the game can be entered.
#[derive(Clone, Copy, Debug, PartialEq, Eq, Structural)]
pub enum Category {
    /// Any%.
    AnyPercent,
    /// Any% with glitches.
    AnyPercentGlitched,
    /// Any% with the GT code.
    AnyPercentGTCode,
    /// 100%.
    OneHundredPercent,
    /// Low% with the ice beam.
    LowPercentIce,
    /// Low% with the speed booster.
    LowPercentSpeed,
    /// Low% with x-ray and ice.
    LowPercentXIce,
    /// Low% with speed booster and boots.
    LowPercentSpeedBoots,
    /// Low% with ice beam and boots.
    LowPercentIceBoots,
    /// Low% with ice beam and speed booster.
    LowPercentIceBooster,
    /// Low%, glitched, all bosses.
    LowPercentAllBosses,
    /// Low% with glitches.
    LowPercentGlitched,
    /// Reverse boss order.
    RBO,
    /// GT classic.
    GTClassic,
    /// The escape from Ceres.
    CeresEscape,
    /// 100% map completion.
    MapCompletion,
    /// Spore Spawn in real time.
    SporeSpawnRTA,
    /// Botwoon in real time.
    BotwoonRTA,
    /// Crocomire in real time.
    CrocomireRTA,
    /// A category this library does not know.
    Unknown,
}

/// The two console regions that leaderboards tell apart.
#[derive(Clone, Copy, Debug, PartialEq, Eq, Structural)]
pub enum Region {
    NTSC,
    PAL,
}

/// The lowercase form of a text, as std's `str::to_lowercase` returns it.
pub uninterp spec fn lowercase_of(s: Seq<char>) -> Seq<char>;

/// Calls `str::to_lowercase`. Claims only that the result is the value that
/// `lowercase_of` names: the same text always has the same lowercase form.
#[verifier::external_body]
fn to_lowercase(s: &str) -> (lower: String)
    ensures
        lower@ == lowercase_of(s@),
{
    s.to_lowercase()
}

/// A table from names to categories.
pub type NameTable = Seq<(Seq<char>, Category)>;

/// The category that `table` gives for `name`: that of the first row with
/// that name, and `Unknown` where no row has it.
pub open spec fn looked_up(table: NameTable, name: Seq<char>) -> Category {
    looked_up_from(table, name, 0)
}

/// The category that the rows of `table` from row `from` on give for `name`.
pub open spec fn looked_up_from(table: NameTable, name: Seq<char>, from: int) -> Category
    decreases table.len() - from,
{
    if from < 0 || from >= table.len() {
        Category::Unknown
    } else if table[from].0 == name {
        table[from].1
    } else {
        looked_up_from(table, name, from + 1)
    }
}

/// The names under which commands know the categories, in lower case.
pub open spec fn name_table() -> NameTable {
    seq![
        ("any%"@, Category::AnyPercent),
        ("100%"@, Category::OneHundredPercent),
        ("100% map"@, Category::MapCompletion),
        ("map completion"@, Category::MapCompletion),
        ("low% ice"@, Category::LowPercentIce),
        ("14% ice"@, Category::LowPercentIce),
        ("low% speed"@, Category::LowPercentSpeed),
        ("14% speed"@, Category::LowPercentSpeed),
        ("rbo"@, Category::RBO),
        ("ceres"@, Category::CeresEscape),
        ("ssrta"@, Category::SporeSpawnRTA),
        ("any% glitched"@, Category::AnyPercentGlitched),
        ("any% gt"@, Category::AnyPercentGTCode),
        ("any% gt code"@, Category::AnyPercentGTCode),
        ("gt classic"@, Category::GTClassic),
        ("low% glitched"@, Category::LowPercentGlitched),
        ("3%"@, Category::LowPercentGlitched),
        ("0%"@, Category::LowPercentGlitched),
        ("low% all bosses"@, Category::LowPercentAllBosses),
        ("12%"@, Category::LowPercentAllBosses),
        ("any% pal"@, Category::AnyPercent),
        ("low% iceboots"@, Category::LowPercentIceBoots),
        ("14% iceboots"@, Category::LowPercentIceBoots),
        ("low% speedboots"@, Category::LowPercentSpeedBoots),
        ("14% speedboots"@, Category::LowPercentSpeedBoots),
        ("low% icebooster"@, Category::LowPercentIceBooster),
        ("14% icebooster"@, Category::LowPercentIceBooster),
        ("low% xice"@, Category::LowPercentXIce),
        ("low% x-ice"@, Category::LowPercentXIce),
        ("14% xice"@, Category::LowPercentXIce),
        ("14% x-ice"@, Category::LowPercentXIce),
        ("crocomire rta"@, Category::CrocomireRTA),
    ]
}

/// The category strings of DeerTier.
pub open spec fn dt_table() -> NameTable {
    seq![
        ("AnyPercentRealTime"@, Category::AnyPercent),
        ("OneHundredPercent"@, Category::OneHundredPercent),
        ("OneHundredPercentMap"@, Category::MapCompletion),
        ("LowPercentIce"@, Category::LowPercentIce),
        ("LowPercentSpeed"@, Category::LowPercentSpeed),
        ("RBO"@, Category::RBO),
        ("Ceres"@, Category::CeresEscape),
        ("SporeSpawnRTA"@, Category::SporeSpawnRTA),
        ("AnyPercentGlitched"@, Category::AnyPercentGlitched),
        ("AnyPercentGTCode"@, Category::AnyPercentGTCode),
        ("GTClassic"@, Category::GTClassic),
        ("LowPercentGlitched"@, Category::LowPercentGlitched),
        ("LowPercentAllBosses"@, Category::LowPercentAllBosses),
        ("PALAnyPercentRealTime"@, Category::AnyPercent),
        ("PALLowPercentIceboots"@, Category::LowPercentIceBoots),
        ("PALLowPercentSpeedBoots"@, Category::LowPercentSpeedBoots),
        ("LowPercentIceBooster"@, Category::LowPercentIceBooster),
        ("LowPercentXIce"@, Category::LowPercentXIce),
        ("BotwoonRTA"@, Category::BotwoonRTA),
        ("CrocomireRTA"@, Category::CrocomireRTA),
    ]
}

/// Looking a name up finds the first row that has it, if there is one.
pub proof fn lemma_looked_up_from(table: NameTable, name: Seq<char>, from: int)
    requires
        0 <= from <= table.len(),
    ensures
        (forall|i: int| from <= i < table.len() ==> (#[trigger] table[i]).0 != name)
            ==> looked_up_from(table, name, from) == Category::Unknown,
        forall|i: int|
            from <= i < table.len() && (#[trigger] table[i]).0 == name && (forall|j: int|
                from <= j < i ==> (#[trigger] table[j]).0 != name) ==> looked_up_from(
                table,
                name,
                from,
            ) == table[i].1,
    decreases table.len() - from,
{
    if from < table.len() {
        lemma_looked_up_from(table, name, from + 1);
    }
}

/// A name of a table whose categories are all known is looked up as a known
/// category.
pub proof fn lemma_listed_is_known(table: NameTable, i: int)
    requires
        0 <= i < table.len(),
        forall|j: int| 0 <= j < table.len() ==> (#[trigger] table[j]).1 != Category::Unknown,
    ensures
        looked_up(table, table[i].0) != Category::Unknown,
{
    lemma_listed_from(table, table[i].0, 0, i);
}

proof fn lemma_listed_from(table: NameTable, name: Seq<char>, from: int, i: int)
    requires
        0 <= from <= i < table.len(),
        table[i].0 == name,
        forall|j: int| 0 <= j < table.len() ==> (#[trigger] table[j]).1 != Category::Unknown,
    ensures
        looked_up_from(table, name, from) != Category::Unknown,
    decreases i - from,
{
    if table[from].0 != name {
        lemma_listed_from(table, name, from + 1, i);
    }
}

/// A name that no row of a table has is looked up as `Unknown`.
pub proof fn lemma_unlisted_is_unknown(table: NameTable, name: Seq<char>)
    requires
        forall|i: int| 0 <= i < table.len() ==> (#[trigger] table[i]).0 != name,
    ensures
        looked_up(table, name) == Category::Unknown,
{
    lemma_looked_up_from(table, name, 0);
}

/// Every name that commands know stands for a known category.
pub proof fn lemma_names_are_known(i: int)
    requires
        0 <= i < name_table().len(),
    ensures
        Category::of_name(name_table()[i].0) != Category::Unknown,
{
    lemma_listed_is_known(name_table(), i);
}

/// Every category string of DeerTier stands for a known category.
pub proof fn lemma_dt_categories_are_known(i: int)
    requires
        0 <= i < dt_table().len(),
    ensures
        Category::of_dt_category(dt_table()[i].0) != Category::Unknown,
{
    lemma_listed_is_known(dt_table(), i);
}

/// A table as exec code reads it.
pub open spec fn table_view(rows: Seq<(&'static str, Category)>) -> NameTable {
    rows.map_values(|row: (&'static str, Category)| (row.0@, row.1))
}

fn name_rows() -> (table: Vec<(&'static str, Category)>)
    ensures
        table_view(table@) == name_table(),
{
    let mut table: Vec<(&'static str, Category)> = Vec::new();
    table.push(("any%", Category::AnyPercent));
    table.push(("100%", Category::OneHundredPercent));
    table.push(("100% map", Category::MapCompletion));
    table.push(("map completion", Category::MapCompletion));
    table.push(("low% ice", Category::LowPercentIce));
    table.push(("14% ice", Category::LowPercentIce));
    table.push(("low% speed", Category::LowPercentSpeed));
    table.push(("14% speed", Category::LowPercentSpeed));
    table.push(("rbo", Category::RBO));
    table.push(("ceres", Category::CeresEscape));
    table.push(("ssrta", Category::SporeSpawnRTA));
    table.push(("any% glitched", Category::AnyPercentGlitched));
    table.push(("any% gt", Category::AnyPercentGTCode));
    table.push(("any% gt code", Category::AnyPercentGTCode));
    table.push(("gt classic", Category::GTClassic));
    table.push(("low% glitched", Category::LowPercentGlitched));
    table.push(("3%", Category::LowPercentGlitched));
    table.push(("0%", Category::LowPercentGlitched));
    table.push(("low% all bosses", Category::LowPercentAllBosses));
    table.push(("12%", Category::LowPercentAllBosses));
    table.push(("any% pal", Category::AnyPercent));
    table.push(("low% iceboots", Category::LowPercentIceBoots));
    table.push(("14% iceboots", Category::LowPercentIceBoots));
    table.push(("low% speedboots", Category::LowPercentSpeedBoots));
    table.push(("14% speedboots", Category::LowPercentSpeedBoots));
    table.push(("low% icebooster", Category::LowPercentIceBooster));
    table.push(("14% icebooster", Category::LowPercentIceBooster));
    table.push(("low% xice", Category::LowPercentXIce));
    table.push(("low% x-ice", Category::LowPercentXIce));
    table.push(("14% xice", Category::LowPercentXIce));
    table.push(("14% x-ice", Category::LowPercentXIce));
    table.push(("crocomire rta", Category::CrocomireRTA));
    assert(table_view(table@) =~= name_table());
    table
}

fn dt_rows() -> (table: Vec<(&'static str, Category)>)
    ensures
        table_view(table@) == dt_table(),
{
    let mut table: Vec<(&'static str, Category)> = Vec::new();
    table.push(("AnyPercentRealTime", Category::AnyPercent));
    table.push(("OneHundredPercent", Category::OneHundredPercent));
    table.push(("OneHundredPercentMap", Category::MapCompletion));
    table.push(("LowPercentIce", Category::LowPercentIce));
    table.push(("LowPercentSpeed", Category::LowPercentSpeed));
    table.push(("RBO", Category::RBO));
    table.push(("Ceres", Category::CeresEscape));
    table.push(("SporeSpawnRTA", Category::SporeSpawnRTA));
    table.push(("AnyPercentGlitched", Category::AnyPercentGlitched));
    table.push(("AnyPercentGTCode", Category::AnyPercentGTCode));
    table.push(("GTClassic", Category::GTClassic));
    table.push(("LowPercentGlitched", Category::LowPercentGlitched));
    table.push(("LowPercentAllBosses", Category::LowPercentAllBosses));
    table.push(("PALAnyPercentRealTime", Category::AnyPercent));
    table.push(("PALLowPercentIceboots", Category::LowPercentIceBoots));
    table.push(("PALLowPercentSpeedBoots", Category::LowPercentSpeedBoots));
    table.push(("LowPercentIceBooster", Category::LowPercentIceBooster));
    table.push(("LowPercentXIce", Category::LowPercentXIce));
    table.push(("BotwoonRTA", Category::BotwoonRTA));
    table.push(("CrocomireRTA", Category::CrocomireRTA));
    assert(table_view(table@) =~= dt_table());
    table
}

fn look_up(table: &Vec<(&'static str, Category)>, name: &str) -> (category: Category)
    ensures
        category == looked_up(table_view(table@), name@),
{
    let ghost rows = table_view(table@);
    let mut i: usize = 0;
    while i < table.len()
        invariant
            i <= table.len(),
            rows == table_view(table@),
            forall|j: int| 0 <= j < i ==> (#[trigger] rows[j]).0 != name@,
        decreases table.len() - i,
    {
        if str_eq(table[i].0, name) {
            proof {
                assert(rows[i as int] == (table[i as int].0@, table[i as int].1));
                lemma_looked_up_from(rows, name@, 0);
            }
            return table[i].1;
        }
        assert(rows[i as int].0 != name@);
        i += 1;
    }
    proof {
        lemma_looked_up_from(rows, name@, 0);
    }
    Category::Unknown
}

impl Category {
    /// The integer under which a category is stored. The table is fixed:
    /// a category added later gets a new number and none changes.
    pub open spec fn code(self) -> int {
        match self {
            Category::AnyPercent => 0,
            Category::AnyPercentGlitched => 1,
            Category::AnyPercentGTCode => 2,
            Category::OneHundredPercent => 3,
            Category::LowPercentIce => 4,
            Category::LowPercentSpeed => 5,
            Category::LowPercentXIce => 6,
            Category::LowPercentSpeedBoots => 7,
            Category::LowPercentIceBoots => 8,
            Category::LowPercentIceBooster => 9,
            Category::LowPercentAllBosses => 10,
            Category::LowPercentGlitched => 11,
            Category::RBO => 12,
            Category::GTClassic => 13,
            Category::CeresEscape => 14,
            Category::MapCompletion => 15,
            Category::SporeSpawnRTA => 16,
            Category::BotwoonRTA => 17,
            Category::CrocomireRTA => 18,
            Category::Unknown => 19,
        }
    }

    /// The category stored under `code`, if there is one.
    pub open spec fn of_code(code: int) -> Option<Category> {
        if code == 0 {
            Some(Category::AnyPercent)
        } else if code == 1 {
            Some(Category::AnyPercentGlitched)
        } else if code == 2 {
            Some(Category::AnyPercentGTCode)
        } else if code == 3 {
            Some(Category::OneHundredPercent)
        } else if code == 4 {
            Some(Category::LowPercentIce)
        } else if code == 5 {
            Some(Category::LowPercentSpeed)
        } else if code == 6 {
            Some(Category::LowPercentXIce)
        } else if code == 7 {
            Some(Category::LowPercentSpeedBoots)
        } else if code == 8 {
            Some(Category::LowPercentIceBoots)
        } else if code == 9 {
            Some(Category::LowPercentIceBooster)
        } else if code == 10 {
            Some(Category::LowPercentAllBosses)
        } else if code == 11 {
            Some(Category::LowPercentGlitched)
        } else if code == 12 {
            Some(Category::RBO)
        } else if code == 13 {
            Some(Category::GTClassic)
        } else if code == 14 {
            Some(Category::CeresEscape)
        } else if code == 15 {
            Some(Category::MapCompletion)
        } else if code == 16 {
            Some(Category::SporeSpawnRTA)
        } else if code == 17 {
            Some(Category::BotwoonRTA)
        } else if code == 18 {
            Some(Category::CrocomireRTA)
        } else if code == 19 {
            Some(Category::Unknown)
        } else {
            None
        }
    }

    /// The category that a command names, `name` being in lower case.
    pub open spec fn of_name(name: Seq<char>) -> Category {
        looked_up(name_table(), name)
    }

    /// The category that a category string of DeerTier names.
    pub open spec fn of_dt_category(category: Seq<char>) -> Category {
        looked_up(dt_table(), category)
    }

    /// The text under which a category is shown.
    pub open spec fn display_text(self) -> Seq<char> {
        match self {
            Category::AnyPercent => "Any%"@,
            Category::AnyPercentGlitched => "Any% Glitched"@,
            Category::AnyPercentGTCode => "Any% GT Code"@,
            Category::OneHundredPercent => "100%"@,
            Category::LowPercentIce => "14% Ice"@,
            Category::LowPercentSpeed => "14% Speed"@,
            Category::LowPercentXIce => "14% X-Ice"@,
            Category::LowPercentSpeedBoots => "14% SpeedBoots"@,
            Category::LowPercentIceBoots => "14% IceBoots"@,
            Category::LowPercentIceBooster => "14% IceBooster"@,
            Category::LowPercentAllBosses => "Low% Glitched All Bosses"@,
            Category::LowPercentGlitched => "Low% Glitched"@,
            Category::RBO => "RBO"@,
            Category::GTClassic => "GT Classic"@,
            Category::CeresEscape => "Ceres Escape"@,
            Category::MapCompletion => "Map Completion"@,
            Category::SporeSpawnRTA => "Spore Spawn RTA"@,
            Category::BotwoonRTA => "Botwoon RTA"@,
            Category::CrocomireRTA => "Crocomire RTA"@,
            Category::Unknown => "Unknown"@,
        }
    }

    /// The integer under which the category is stored.
    pub fn to_code(&self) -> (code: i32)
        ensures
            code == self.code(),
            0 <= code < 20,
    {
        match self {
            Category::AnyPercent => 0,
            Category::AnyPercentGlitched => 1,
            Category::AnyPercentGTCode => 2,
            Category::OneHundredPercent => 3,
            Category::LowPercentIce => 4,
            Category::LowPercentSpeed => 5,
            Category::LowPercentXIce => 6,
            Category::LowPercentSpeedBoots => 7,
            Category::LowPercentIceBoots => 8,
            Category::LowPercentIceBooster => 9,
            Category::LowPercentAllBosses => 10,
            Category::LowPercentGlitched => 11,
            Category::RBO => 12,
            Category::GTClassic => 13,
            Category::CeresEscape => 14,
            Category::MapCompletion => 15,
            Category::SporeSpawnRTA => 16,
            Category::BotwoonRTA => 17,
            Category::CrocomireRTA => 18,
            Category::Unknown => 19,
        }
    }

    /// The category that is stored under `code`, if there is one.
    pub fn from_code(code: i32) -> (category: Option<Category>)
        ensures
            category == Category::of_code(code as int),
    {
        if code == 0 {
            Some(Category::AnyPercent)
        } else if code == 1 {
            Some(Category::AnyPercentGlitched)
        } else if code == 2 {
            Some(Category::AnyPercentGTCode)
        } else if code == 3 {
            Some(Category::OneHundredPercent)
        } else if code == 4 {
            Some(Category::LowPercentIce)
        } else if code == 5 {
            Some(Category::LowPercentSpeed)
        } else if code == 6 {
            Some(Category::LowPercentXIce)
        } else if code == 7 {
            Some(Category::LowPercentSpeedBoots)
        } else if code == 8 {
            Some(Category::LowPercentIceBoots)
        } else if code == 9 {
            Some(Category::LowPercentIceBooster)
        } else if code == 10 {
            Some(Category::LowPercentAllBosses)
        } else if code == 11 {
            Some(Category::LowPercentGlitched)
        } else if code == 12 {
            Some(Category::RBO)
        } else if code == 13 {
            Some(Category::GTClassic)
        } else if code == 14 {
            Some(Category::CeresEscape)
        } else if code == 15 {
            Some(Category::MapCompletion)
        } else if code == 16 {
            Some(Category::SporeSpawnRTA)
        } else if code == 17 {
            Some(Category::BotwoonRTA)
        } else if code == 18 {
            Some(Category::CrocomireRTA)
        } else if code == 19 {
            Some(Category::Unknown)
        } else {
            None
        }
    }

    /// Parses the name of a category as typed in a command, in any case.
    pub fn from_name(category: &str) -> (parsed: Category)
        ensures
            parsed == Category::of_name(lowercase_of(category@)),
    {
        let lower = to_lowercase(category);
        Category::from_lowercase_name(lower.as_str())
    }

    /// Parses the name of a category that is already in lower case.
    pub fn from_lowercase_name(name: &str) -> (parsed: Category)
        ensures
            parsed == Category::of_name(name@),
    {
        proof {
            lemma_looked_up_from(name_table(), name@, 0);
        }
        look_up(&name_rows(), name)
    }

    /// Parses a category string of DeerTier. The strings are case sensitive.
    pub fn from_dt_category(category: &str) -> (parsed: Category)
        ensures
            parsed == Category::of_dt_category(category@),
    {
        proof {
            lemma_looked_up_from(dt_table(), category@, 0);
        }
        look_up(&dt_rows(), category)
    }

    /// The stored code of the category, written in decimal.
    pub fn to_db(&self) -> (text: String)
        ensures
            text@ == decimal_text(self.code() as nat),
    {
        nat_text(self.to_code() as u32)
    }

    /// The name under which the category is shown.
    pub fn display_name(&self) -> (text: String)
        ensures
            text@ == self.display_text(),
    {
        match self {
            Category::AnyPercent => String::from_str("Any%"),
            Category::AnyPercentGlitched => String::from_str("Any% Glitched"),
            Category::AnyPercentGTCode => String::from_str("Any% GT Code"),
            Category::OneHundredPercent => String::from_str("100%"),
            Category::LowPercentIce => String::from_str("14% Ice"),
            Category::LowPercentSpeed => String::from_str("14% Speed"),
            Category::LowPercentXIce => String::from_str("14% X-Ice"),
            Category::LowPercentSpeedBoots => String::from_str("14% SpeedBoots"),
            Category::LowPercentIceBoots => String::from_str("14% IceBoots"),
            Category::LowPercentIceBooster => String::from_str("14% IceBooster"),
            Category::LowPercentAllBosses => String::from_str("Low% Glitched All Bosses"),
            Category::LowPercentGlitched => String::from_str("Low% Glitched"),
            Category::RBO => String::from_str("RBO"),
            Category::GTClassic => String::from_str("GT Classic"),
            Category::CeresEscape => String::from_str("Ceres Escape"),
            Category::MapCompletion => String::from_str("Map Completion"),
            Category::SporeSpawnRTA => String::from_str("Spore Spawn RTA"),
            Category::BotwoonRTA => String::from_str("Botwoon RTA"),
            Category::CrocomireRTA => String::from_str("Crocomire RTA"),
            Category::Unknown => String::from_str("Unknown"),
        }
    }

    /// Decoding undoes encoding, and every code that decodes is the code of
    /// the category it decodes to.
    pub proof fn lemma_code_round_trip(category: Category, code: int)
        ensures
            Category::of_code(category.code()) == Some(category),
            Category::of_code(code) matches Some(c) ==> c.code() == code,
            Category::of_code(code) is Some <==> 0 <= code < 20,
    {
    }
}

impl Region {
    /// The integer under which a region is stored.
    pub open spec fn code(self) -> int {
        match self {
            Region::NTSC => 0,
            Region::PAL => 1,
        }
    }

    /// The region stored under `code`, if there is one.
    pub open spec fn of_code(code: int) -> Option<Region> {
        if code == 0 {
            Some(Region::NTSC)
        } else if code == 1 {
            Some(Region::PAL)
        } else {
            None
        }
    }

    /// The region that a category string of DeerTier implies: its three PAL
    /// categories are PAL, every other string is NTSC.
    pub open spec fn of_dt_category(category: Seq<char>) -> Region {
        if category == "PALAnyPercentRealTime"@ || category == "PALLowPercentIceboots"@
            || category == "PALLowPercentSpeedBoots"@ {
            Region::PAL
        } else {
            Region::NTSC
        }
    }

    /// The integer under which the region is stored.
    pub fn to_code(&self) -> (code: i32)
        ensures
            code == self.code(),
            0 <= code < 2,
    {
        match self {
            Region::NTSC => 0,
            Region::PAL => 1,
        }
    }

    /// The region that is stored under `code`, if there is one.
    pub fn from_code(code: i32) -> (region: Option<Region>)
        ensures
            region == Region::of_code(code as int),
    {
        if code == 0 {
            Some(Region::NTSC)
        } else if code == 1 {
            Some(Region::PAL)
        } else {
            None
        }
    }

    /// The region that a category string of DeerTier implies.
    pub fn from_dt_category(category: &str) -> (region: Region)
        ensures
            region == Region::of_dt_category(category@),
    {
        if str_eq(category, "PALAnyPercentRealTime") || str_eq(category, "PALLowPercentIceboots")
            || str_eq(category, "PALLowPercentSpeedBoots") {
            Region::PAL
        } else {
            Region::NTSC
        }
    }

    /// The stored code of the region, written in decimal.
    pub fn to_db(&self) -> (text: String)
        ensures
            text@ == decimal_text(self.code() as nat),
    {
        nat_text(self.to_code() as u32)
    }

    /// Decoding undoes encoding.
    pub proof fn lemma_code_round_trip(region: Region, code: int)
        ensures
            Region::of_code(region.code()) == Some(region),
            Region::of_code(code) matches Some(r) ==> r.code() == code,
            Region::of_code(code) is Some <==> 0 <= code < 2,
    {
    }
}

} // verus!
