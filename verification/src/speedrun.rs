//! Runs as speedrun.com reports them: the shape of its leaderboards, and the
//! classification of its category identifiers.

use vstd::prelude::*;
use vstd::string::*;
use crate::category::{Category, Region};
use crate::search::{
    first_index_of, lemma_first_index_of, lemma_first_is_found, lemma_none_is_found,
};
use crate::text::{str_eq, text_of};

pub mod intake;

verus! {

/// One leaderboard with its runs and the users who made them.
#[derive(Debug)]
pub struct SrcLeaderboard {
    pub weblink: String,
    pub game: String,
    pub category: String,
    pub runs: Vec<SrcLeaderboardRuns>,
    pub players: SrcLeaderboardPlayers,
}

/// The users who made the runs of a leaderboard.
#[derive(Debug)]
pub struct SrcLeaderboardPlayers {
    pub data: Vec<SrcUser>,
}

/// One run of a leaderboard with its place.
#[derive(Debug)]
pub struct SrcLeaderboardRuns {
    pub place: i32,
    pub run: SrcRun,
}

/// One run as speedrun.com describes it.
#[derive(Debug)]
pub struct SrcRun {
    pub id: String,
    pub weblink: Option<String>,
    pub category: Option<String>,
    pub videos: Option<SrcVideo>,
    pub comment: Option<String>,
    pub status: SrcStatus,
    pub players: Vec<SrcPlayer>,
    pub date: Option<String>,
    pub times: SrcTimes,
    pub system: Option<SrcSystem>,
    pub splits: Option<SrcSplits>,
    pub values: Option<SrcValue>,
}

/// The values of the variables that split a leaderboard, each under the
/// variable that it belongs to.
#[derive(Debug)]
pub struct SrcValue {
    pub low_percent: Option<String>,
    pub gt_code: Option<String>,
    pub miniboss: Option<String>,
    pub region: Option<String>,
}

/// Where the splits of a run are.
#[derive(Debug)]
pub struct SrcSplits {
    pub rel: String,
    pub uri: Option<String>,
}

/// What a run was played on.
#[derive(Debug)]
pub struct SrcSystem {
    pub platform: Option<String>,
    pub emulated: bool,
    pub region: Option<String>,
}

/// The times of a run. Those that speedrun.com gives as a number are held in
/// whole seconds.
#[derive(Debug)]
pub struct SrcTimes {
    pub primary: Option<String>,
    pub primary_t: Option<i32>,
    pub realtime: Option<String>,
    pub realtime_t: Option<i32>,
    pub realtime_noloads: Option<String>,
    pub ingame: Option<String>,
    pub ingame_t: Option<i32>,
}

/// Who made a run: a user of speedrun.com by `id`, or a guest by `name`.
#[derive(Debug)]
pub struct SrcPlayer {
    pub rel: String,
    pub id: Option<String>,
    pub name: Option<String>,
    pub uri: Option<String>,
}

/// One of the users of a leaderboard: a user of speedrun.com with `id` and
/// `names`, or a guest with `name`.
#[derive(Debug)]
pub struct SrcUser {
    pub rel: String,
    pub id: Option<String>,
    pub name: Option<String>,
    pub names: Option<SrcNames>,
}

/// The names of a user of speedrun.com.
#[derive(Debug)]
pub struct SrcNames {
    pub international: String,
    pub japanese: Option<String>,
}

/// Whether and by whom a run was verified.
#[derive(Debug)]
pub struct SrcStatus {
    pub status: String,
    pub examiner: Option<String>,
    pub verify_date: Option<String>,
}

/// The videos of a run.
#[derive(Debug)]
pub struct SrcVideo {
    pub text: Option<String>,
    pub links: Option<Vec<SrcLink>>,
}

/// The address of one video.
#[derive(Debug)]
pub struct SrcLink {
    pub uri: Option<String>,
}

/// The reader of speedrun.com's leaderboards.
pub struct Src {
    api_key: String,
}

/// The variables of speedrun.com that this library reads.
#[derive(Clone, Copy, Debug, PartialEq, Eq, Structural)]
pub enum Variable {
    LowPercent,
    GtCode,
    Miniboss,
    Region,
}

/// The values of a run's variables as contracts see them.
pub struct SrcValueView {
    pub low_percent: Option<Seq<char>>,
    pub gt_code: Option<Seq<char>>,
    pub miniboss: Option<Seq<char>>,
    pub region: Option<Seq<char>>,
}

impl View for SrcValue {
    type V = SrcValueView;

    open spec fn view(&self) -> SrcValueView {
        SrcValueView {
            low_percent: text_of(self.low_percent),
            gt_code: text_of(self.gt_code),
            miniboss: text_of(self.miniboss),
            region: text_of(self.region),
        }
    }
}

/// One of the leaderboards that this library reads: the identifier of its
/// category at speedrun.com, the variable and value that single it out where
/// several leaderboards share that identifier, and its category here.
pub struct Leaderboard {
    pub category_id: Seq<char>,
    pub split: Option<(Variable, Seq<char>)>,
    pub category: Category,
}

impl Variable {
    /// The identifier of the variable at speedrun.com.
    pub open spec fn id(self) -> Seq<char> {
        match self {
            Variable::LowPercent => "onv6jzw8"@,
            Variable::GtCode => "kn02d083"@,
            Variable::Miniboss => "wl360wwl"@,
            Variable::Region => "wle6dpr8"@,
        }
    }

    fn id_str(&self) -> (id: &'static str)
        ensures
            id@ == self.id(),
    {
        match self {
            Variable::LowPercent => "onv6jzw8",
            Variable::GtCode => "kn02d083",
            Variable::Miniboss => "wl360wwl",
            Variable::Region => "wle6dpr8",
        }
    }
}

impl SrcValueView {
    /// The value of `variable`, if the run has one.
    pub open spec fn value_of(self, variable: Variable) -> Option<Seq<char>> {
        match variable {
            Variable::LowPercent => self.low_percent,
            Variable::GtCode => self.gt_code,
            Variable::Miniboss => self.miniboss,
            Variable::Region => self.region,
        }
    }
}

impl Leaderboard {
    /// Whether a run with this category identifier and these values is a run
    /// of this leaderboard: the identifier is that of the leaderboard, and
    /// where its variable tells categories apart, the run has the
    /// leaderboard's value of it. The region tells no categories apart.
    pub open spec fn holds(self, category_id: Seq<char>, values: SrcValueView) -> bool {
        self.category_id == category_id && match self.split {
            Some((Variable::Region, _)) => true,
            Some((variable, value)) => values.value_of(variable) == Some(value),
            None => true,
        }
    }

    /// Values as a run of this leaderboard has them: the value that singles
    /// the leaderboard out under its variable, and nothing else.
    pub open spec fn values(self) -> SrcValueView {
        let none = SrcValueView { low_percent: None, gt_code: None, miniboss: None, region: None };
        match self.split {
            Some((Variable::LowPercent, value)) => SrcValueView { low_percent: Some(value), ..none },
            Some((Variable::GtCode, value)) => SrcValueView { gt_code: Some(value), ..none },
            Some((Variable::Miniboss, value)) => SrcValueView { miniboss: Some(value), ..none },
            Some((Variable::Region, value)) => SrcValueView { region: Some(value), ..none },
            None => none,
        }
    }

    /// What is appended to the address of the leaderboards of a game to ask
    /// for this one, with the users who made its runs.
    pub open spec fn url(self) -> Seq<char> {
        match self.split {
            Some((variable, value)) => self.category_id + "?var-"@ + variable.id() + "="@ + value
                + "&embed=players"@,
            None => self.category_id + "?embed=players"@,
        }
    }
}

/// The leaderboards that this library reads, in the order in which it reads
/// them.
pub open spec fn leaderboards() -> Seq<Leaderboard> {
    seq![
        Leaderboard {
            category_id: "9d8v96lk"@,
            split: Some((Variable::Region, "21gezkxl"@)),
            category: Category::AnyPercent,
        },
        Leaderboard {
            category_id: "9d8v96lk"@,
            split: Some((Variable::Region, "jqzvzo4l"@)),
            category: Category::AnyPercent,
        },
        Leaderboard {
            category_id: "xd1mpewd"@,
            split: None,
            category: Category::OneHundredPercent,
        },
        Leaderboard {
            category_id: "ndx8qmvk"@,
            split: None,
            category: Category::RBO,
        },
        Leaderboard {
            category_id: "w20zowod"@,
            split: None,
            category: Category::AnyPercentGlitched,
        },
        Leaderboard {
            category_id: "xd1mplwd"@,
            split: None,
            category: Category::MapCompletion,
        },
        Leaderboard {
            category_id: "n2y1y182"@,
            split: None,
            category: Category::CeresEscape,
        },
        Leaderboard {
            category_id: "w2018jok"@,
            split: None,
            category: Category::LowPercentGlitched,
        },
        Leaderboard {
            category_id: "wdmqjw32"@,
            split: Some((Variable::GtCode, "81w422oq"@)),
            category: Category::GTClassic,
        },
        Leaderboard {
            category_id: "wdmqjw32"@,
            split: Some((Variable::GtCode, "5lmo33j1"@)),
            category: Category::AnyPercentGTCode,
        },
        Leaderboard {
            category_id: "rklgyq8d"@,
            split: Some((Variable::LowPercent, "4lx07prl"@)),
            category: Category::LowPercentIce,
        },
        Leaderboard {
            category_id: "rklgyq8d"@,
            split: Some((Variable::LowPercent, "814k0yjl"@)),
            category: Category::LowPercentSpeed,
        },
        Leaderboard {
            category_id: "rklgyq8d"@,
            split: Some((Variable::LowPercent, "z195omkq"@)),
            category: Category::LowPercentIceBooster,
        },
        Leaderboard {
            category_id: "rklgyq8d"@,
            split: Some((Variable::LowPercent, "p12oydkl"@)),
            category: Category::LowPercentXIce,
        },
        Leaderboard {
            category_id: "rklgyq8d"@,
            split: Some((Variable::LowPercent, "xqk9yjy1"@)),
            category: Category::LowPercentIceBoots,
        },
        Leaderboard {
            category_id: "rklgyq8d"@,
            split: Some((Variable::LowPercent, "gq79mjyl"@)),
            category: Category::LowPercentSpeedBoots,
        },
        Leaderboard {
            category_id: "7kjrnrx2"@,
            split: Some((Variable::Miniboss, "21gezknl"@)),
            category: Category::SporeSpawnRTA,
        },
        Leaderboard {
            category_id: "7kjrnrx2"@,
            split: Some((Variable::Miniboss, "jqzvzogl"@)),
            category: Category::CrocomireRTA,
        },
        Leaderboard {
            category_id: "7kjrnrx2"@,
            split: Some((Variable::Miniboss, "klrjo8jq"@)),
            category: Category::BotwoonRTA,
        },
    ]
}

/// The category of a run of speedrun.com, from the identifier of its
/// category there and the values of its variables: that of the first
/// leaderboard that holds such a run. An identifier or a value that this
/// library does not know, or a value that is missing, gives `Unknown`.
pub open spec fn category_of(category_id: Seq<char>, values: SrcValueView) -> Category {
    match first_index_of(leaderboards(), |b: Leaderboard| b.holds(category_id, values)) {
        Some(i) => leaderboards()[i].category,
        None => Category::Unknown,
    }
}

/// The region of a run of speedrun.com. The two categories that exist on PAL
/// only are PAL whatever the run says; any other run is PAL where its region
/// variable says so, and NTSC where it says so, something else or nothing.
pub open spec fn region_of(category_id: Seq<char>, values: SrcValueView) -> Region {
    let category = category_of(category_id, values);
    if category == Category::LowPercentIceBoots || category == Category::LowPercentSpeedBoots {
        Region::PAL
    } else {
        match values.region {
            Some(region) => if region == "jqzvzo4l"@ {
                Region::PAL
            } else {
                Region::NTSC
            },
            None => Region::NTSC,
        }
    }
}

/// The category and region of a run of speedrun.com.
pub open spec fn classified(category_id: Seq<char>, values: SrcValueView) -> (Category, Region) {
    (category_of(category_id, values), region_of(category_id, values))
}

/// The identifiers of the categories differ from one another, and so do the
/// values of each variable: a few of their characters tell them apart.
proof fn lemma_identifiers_differ()
    ensures
        "9d8v96lk"@ != "xd1mpewd"@,
        "9d8v96lk"@ != "ndx8qmvk"@,
        "9d8v96lk"@ != "w20zowod"@,
        "9d8v96lk"@ != "xd1mplwd"@,
        "9d8v96lk"@ != "n2y1y182"@,
        "9d8v96lk"@ != "w2018jok"@,
        "9d8v96lk"@ != "wdmqjw32"@,
        "9d8v96lk"@ != "rklgyq8d"@,
        "9d8v96lk"@ != "7kjrnrx2"@,
        "xd1mpewd"@ != "ndx8qmvk"@,
        "xd1mpewd"@ != "w20zowod"@,
        "xd1mpewd"@ != "xd1mplwd"@,
        "xd1mpewd"@ != "n2y1y182"@,
        "xd1mpewd"@ != "w2018jok"@,
        "xd1mpewd"@ != "wdmqjw32"@,
        "xd1mpewd"@ != "rklgyq8d"@,
        "xd1mpewd"@ != "7kjrnrx2"@,
        "ndx8qmvk"@ != "w20zowod"@,
        "ndx8qmvk"@ != "xd1mplwd"@,
        "ndx8qmvk"@ != "n2y1y182"@,
        "ndx8qmvk"@ != "w2018jok"@,
        "ndx8qmvk"@ != "wdmqjw32"@,
        "ndx8qmvk"@ != "rklgyq8d"@,
        "ndx8qmvk"@ != "7kjrnrx2"@,
        "w20zowod"@ != "xd1mplwd"@,
        "w20zowod"@ != "n2y1y182"@,
        "w20zowod"@ != "w2018jok"@,
        "w20zowod"@ != "wdmqjw32"@,
        "w20zowod"@ != "rklgyq8d"@,
        "w20zowod"@ != "7kjrnrx2"@,
        "xd1mplwd"@ != "n2y1y182"@,
        "xd1mplwd"@ != "w2018jok"@,
        "xd1mplwd"@ != "wdmqjw32"@,
        "xd1mplwd"@ != "rklgyq8d"@,
        "xd1mplwd"@ != "7kjrnrx2"@,
        "n2y1y182"@ != "w2018jok"@,
        "n2y1y182"@ != "wdmqjw32"@,
        "n2y1y182"@ != "rklgyq8d"@,
        "n2y1y182"@ != "7kjrnrx2"@,
        "w2018jok"@ != "wdmqjw32"@,
        "w2018jok"@ != "rklgyq8d"@,
        "w2018jok"@ != "7kjrnrx2"@,
        "wdmqjw32"@ != "rklgyq8d"@,
        "wdmqjw32"@ != "7kjrnrx2"@,
        "rklgyq8d"@ != "7kjrnrx2"@,
        "81w422oq"@ != "5lmo33j1"@,
        "4lx07prl"@ != "814k0yjl"@,
        "4lx07prl"@ != "z195omkq"@,
        "4lx07prl"@ != "p12oydkl"@,
        "4lx07prl"@ != "xqk9yjy1"@,
        "4lx07prl"@ != "gq79mjyl"@,
        "814k0yjl"@ != "z195omkq"@,
        "814k0yjl"@ != "p12oydkl"@,
        "814k0yjl"@ != "xqk9yjy1"@,
        "814k0yjl"@ != "gq79mjyl"@,
        "z195omkq"@ != "p12oydkl"@,
        "z195omkq"@ != "xqk9yjy1"@,
        "z195omkq"@ != "gq79mjyl"@,
        "p12oydkl"@ != "xqk9yjy1"@,
        "p12oydkl"@ != "gq79mjyl"@,
        "xqk9yjy1"@ != "gq79mjyl"@,
        "21gezknl"@ != "jqzvzogl"@,
        "21gezknl"@ != "klrjo8jq"@,
        "jqzvzogl"@ != "klrjo8jq"@,
{
    reveal_strlit("9d8v96lk");
    assert("9d8v96lk"@[0] == '9' && "9d8v96lk"@[1] == 'd');
    assert("9d8v96lk"@[3] == 'v' && "9d8v96lk"@[5] == '6');
    reveal_strlit("xd1mpewd");
    assert("xd1mpewd"@[0] == 'x' && "xd1mpewd"@[1] == 'd');
    assert("xd1mpewd"@[3] == 'm' && "xd1mpewd"@[5] == 'e');
    reveal_strlit("ndx8qmvk");
    assert("ndx8qmvk"@[0] == 'n' && "ndx8qmvk"@[1] == 'd');
    assert("ndx8qmvk"@[3] == '8' && "ndx8qmvk"@[5] == 'm');
    reveal_strlit("w20zowod");
    assert("w20zowod"@[0] == 'w' && "w20zowod"@[1] == '2');
    assert("w20zowod"@[3] == 'z' && "w20zowod"@[5] == 'w');
    reveal_strlit("xd1mplwd");
    assert("xd1mplwd"@[0] == 'x' && "xd1mplwd"@[1] == 'd');
    assert("xd1mplwd"@[3] == 'm' && "xd1mplwd"@[5] == 'l');
    reveal_strlit("n2y1y182");
    assert("n2y1y182"@[0] == 'n' && "n2y1y182"@[1] == '2');
    assert("n2y1y182"@[3] == '1' && "n2y1y182"@[5] == '1');
    reveal_strlit("w2018jok");
    assert("w2018jok"@[0] == 'w' && "w2018jok"@[1] == '2');
    assert("w2018jok"@[3] == '1' && "w2018jok"@[5] == 'j');
    reveal_strlit("wdmqjw32");
    assert("wdmqjw32"@[0] == 'w' && "wdmqjw32"@[1] == 'd');
    assert("wdmqjw32"@[3] == 'q' && "wdmqjw32"@[5] == 'w');
    reveal_strlit("rklgyq8d");
    assert("rklgyq8d"@[0] == 'r' && "rklgyq8d"@[1] == 'k');
    assert("rklgyq8d"@[3] == 'g' && "rklgyq8d"@[5] == 'q');
    reveal_strlit("7kjrnrx2");
    assert("7kjrnrx2"@[0] == '7' && "7kjrnrx2"@[1] == 'k');
    assert("7kjrnrx2"@[3] == 'r' && "7kjrnrx2"@[5] == 'r');
    reveal_strlit("81w422oq");
    assert("81w422oq"@[0] == '8');
    reveal_strlit("5lmo33j1");
    assert("5lmo33j1"@[0] == '5');
    reveal_strlit("4lx07prl");
    assert("4lx07prl"@[0] == '4');
    reveal_strlit("814k0yjl");
    assert("814k0yjl"@[0] == '8');
    reveal_strlit("z195omkq");
    assert("z195omkq"@[0] == 'z');
    reveal_strlit("p12oydkl");
    assert("p12oydkl"@[0] == 'p');
    reveal_strlit("xqk9yjy1");
    assert("xqk9yjy1"@[0] == 'x');
    reveal_strlit("gq79mjyl");
    assert("gq79mjyl"@[0] == 'g');
    reveal_strlit("21gezknl");
    assert("21gezknl"@[0] == '2');
    reveal_strlit("jqzvzogl");
    assert("jqzvzogl"@[0] == 'j');
    reveal_strlit("klrjo8jq");
    assert("klrjo8jq"@[0] == 'k');
}

/// Every leaderboard that this library reads is classified as its category,
/// and that category is never `Unknown`.
pub proof fn lemma_leaderboards_are_known(i: int)
    requires
        0 <= i < leaderboards().len(),
    ensures
        category_of(leaderboards()[i].category_id, leaderboards()[i].values())
            == leaderboards()[i].category,
        leaderboards()[i].category != Category::Unknown,
{
    let board = leaderboards()[i];
    let holds = |b: Leaderboard| b.holds(board.category_id, board.values());
    lemma_identifiers_differ();
    lemma_first_index_of(leaderboards(), holds);
    assert(holds(leaderboards()[i]));
}

/// A category identifier that none of the leaderboards has is classified as
/// `Unknown`, whatever the values.
pub proof fn lemma_unlisted_is_unknown(category_id: Seq<char>, values: SrcValueView)
    requires
        forall|i: int|
            0 <= i < leaderboards().len() ==> (#[trigger] leaderboards()[i]).category_id
                != category_id,
    ensures
        category_of(category_id, values) == Category::Unknown,
{
    lemma_first_index_of(leaderboards(), |b: Leaderboard| b.holds(category_id, values));
}

/// A leaderboard as exec code holds it.
pub open spec fn board_view(board: (&'static str, Option<(Variable, &'static str)>, Category))
    -> Leaderboard {
    Leaderboard {
        category_id: board.0@,
        split: match board.1 {
            Some((variable, value)) => Some((variable, value@)),
            None => None,
        },
        category: board.2,
    }
}

/// The leaderboards as exec code holds them.
pub open spec fn board_views(
    boards: Seq<(&'static str, Option<(Variable, &'static str)>, Category)>,
) -> Seq<Leaderboard> {
    boards.map_values(
        |board: (&'static str, Option<(Variable, &'static str)>, Category)| board_view(board),
    )
}

impl Src {
    /// A reader that asks under `api_key`.
    pub fn new(api_key: String) -> (src: Src)
        ensures
            src.api_key()@ == api_key@,
    {
        Src { api_key }
    }

    /// The key under which this reader asks.
    pub closed spec fn api_key(&self) -> String {
        self.api_key
    }

    /// The leaderboards to read, as exec values.
    fn boards() -> (boards: Vec<(&'static str, Option<(Variable, &'static str)>, Category)>)
        ensures
            board_views(boards@) == leaderboards(),
    {
        let mut boards: Vec<(&'static str, Option<(Variable, &'static str)>, Category)> =
            Vec::new();
        boards.push(("9d8v96lk", Some((Variable::Region, "21gezkxl")), Category::AnyPercent));
        boards.push(("9d8v96lk", Some((Variable::Region, "jqzvzo4l")), Category::AnyPercent));
        boards.push(("xd1mpewd", None, Category::OneHundredPercent));
        boards.push(("ndx8qmvk", None, Category::RBO));
        boards.push(("w20zowod", None, Category::AnyPercentGlitched));
        boards.push(("xd1mplwd", None, Category::MapCompletion));
        boards.push(("n2y1y182", None, Category::CeresEscape));
        boards.push(("w2018jok", None, Category::LowPercentGlitched));
        boards.push(("wdmqjw32", Some((Variable::GtCode, "81w422oq")), Category::GTClassic));
        boards.push(("wdmqjw32", Some((Variable::GtCode, "5lmo33j1")), Category::AnyPercentGTCode));
        boards.push(
            ("rklgyq8d", Some((Variable::LowPercent, "4lx07prl")), Category::LowPercentIce),
        );
        boards.push(
            ("rklgyq8d", Some((Variable::LowPercent, "814k0yjl")), Category::LowPercentSpeed),
        );
        boards.push(
            ("rklgyq8d", Some((Variable::LowPercent, "z195omkq")), Category::LowPercentIceBooster),
        );
        boards.push(
            ("rklgyq8d", Some((Variable::LowPercent, "p12oydkl")), Category::LowPercentXIce),
        );
        boards.push(
            ("rklgyq8d", Some((Variable::LowPercent, "xqk9yjy1")), Category::LowPercentIceBoots),
        );
        boards.push(
            ("rklgyq8d", Some((Variable::LowPercent, "gq79mjyl")), Category::LowPercentSpeedBoots),
        );
        boards.push(("7kjrnrx2", Some((Variable::Miniboss, "21gezknl")), Category::SporeSpawnRTA));
        boards.push(("7kjrnrx2", Some((Variable::Miniboss, "jqzvzogl")), Category::CrocomireRTA));
        boards.push(("7kjrnrx2", Some((Variable::Miniboss, "klrjo8jq")), Category::BotwoonRTA));
        assert(board_views(boards@) =~= leaderboards());
        boards
    }

    /// What to append to the address of a game's leaderboards, for each
    /// leaderboard that this library reads.
    pub fn get_category_urls(&self) -> (urls: Vec<String>)
        ensures
            urls.len() == leaderboards().len(),
            forall|i: int| 0 <= i < urls.len() ==> (#[trigger] urls[i])@ == leaderboards()[i].url(),
    {
        let boards = Src::boards();
        let mut urls: Vec<String> = Vec::new();
        let mut i: usize = 0;
        while i < boards.len()
            invariant
                i <= boards.len(),
                board_views(boards@) == leaderboards(),
                urls.len() == i,
                forall|k: int| 0 <= k < i ==> (#[trigger] urls[k])@ == leaderboards()[k].url(),
            decreases boards.len() - i,
        {
            let board = &boards[i];
            assert(board_views(boards@)[i as int] == board_view(*board));
            let url = match board.1 {
                Some((variable, value)) => String::from_str(board.0).concat("?var-").concat(
                    variable.id_str(),
                ).concat("=").concat(value).concat("&embed=players"),
                None => String::from_str(board.0).concat("?embed=players"),
            };
            urls.push(url);
            i += 1;
        }
        urls
    }

    /// The category of a run.
    pub fn map_category(&self, category_id: &String, values: &SrcValue) -> (category: Category)
        ensures
            category == category_of(category_id@, values@),
    {
        let boards = Src::boards();
        let ghost holds = |b: Leaderboard| b.holds(category_id@, values@);
        let mut i: usize = 0;
        while i < boards.len()
            invariant
                i <= boards.len(),
                board_views(boards@) == leaderboards(),
                holds == |b: Leaderboard| b.holds(category_id@, values@),
                forall|k: int| 0 <= k < i ==> !holds(#[trigger] leaderboards()[k]),
            decreases boards.len() - i,
        {
            let board = &boards[i];
            assert(leaderboards()[i as int] == board_view(*board));
            let held = str_eq(board.0, category_id.as_str()) && match board.1 {
                Some((Variable::Region, _)) => true,
                Some((variable, value)) => {
                    let given = match variable {
                        Variable::LowPercent => &values.low_percent,
                        Variable::GtCode => &values.gt_code,
                        Variable::Miniboss => &values.miniboss,
                        Variable::Region => &values.region,
                    };
                    match given {
                        Some(text) => str_eq(text.as_str(), value),
                        None => false,
                    }
                },
                None => true,
            };
            if held {
                proof {
                    lemma_first_is_found(leaderboards(), holds, i as int);
                }
                return board.2;
            }
            i += 1;
        }
        proof {
            lemma_none_is_found(leaderboards(), holds);
        }
        Category::Unknown
    }

    /// The region of a run.
    pub fn map_region(&self, category_id: &String, values: &SrcValue) -> (region: Region)
        ensures
            region == region_of(category_id@, values@),
    {
        match self.map_category(category_id, values) {
            Category::LowPercentIceBoots => Region::PAL,
            Category::LowPercentSpeedBoots => Region::PAL,
            _ => match &values.region {
                Some(region) => if str_eq(region.as_str(), "jqzvzo4l") {
                    Region::PAL
                } else {
                    Region::NTSC
                },
                None => Region::NTSC,
            },
        }
    }

    /// The category and region of a run.
    pub fn classify(&self, category_id: &String, values: &SrcValue) -> (class: (Category, Region))
        ensures
            class == classified(category_id@, values@),
    {
        (self.map_category(category_id, values), self.map_region(category_id, values))
    }
}

} // verus!
