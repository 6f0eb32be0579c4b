//! The game's servers and the languages it ships texts for.

use crate::text::characters;
use vstd::prelude::*;
use vstd::string::*;

verus! {

/// A language that the game ships a text catalog for.
#[allow(non_camel_case_types)]
#[derive(Debug, Clone, Copy, PartialEq, Eq, Structural)]
pub enum GameLanguages {
    CS,
    DE,
    EN,
    ES,
    ES_MX,
    FR,
    IT,
    JA,
    KO,
    NL,
    PL,
    PT,
    PT_BR,
    RU,
    TH,
    UK,
    ZH,
    ZH_SG,
    ZH_TW,
}

impl GameLanguages {
    /// The code of the language: the name of its folder among the texts.
    pub open spec fn code(self) -> Seq<char> {
        match self {
            GameLanguages::CS => "cs"@,
            GameLanguages::DE => "de"@,
            GameLanguages::EN => "en"@,
            GameLanguages::ES => "es"@,
            GameLanguages::ES_MX => "es_mx"@,
            GameLanguages::FR => "fr"@,
            GameLanguages::IT => "it"@,
            GameLanguages::JA => "ja"@,
            GameLanguages::KO => "ko"@,
            GameLanguages::NL => "nl"@,
            GameLanguages::PL => "pl"@,
            GameLanguages::PT => "pt"@,
            GameLanguages::PT_BR => "pt_br"@,
            GameLanguages::RU => "ru"@,
            GameLanguages::TH => "th"@,
            GameLanguages::UK => "uk"@,
            GameLanguages::ZH => "zh"@,
            GameLanguages::ZH_SG => "zh_sg"@,
            GameLanguages::ZH_TW => "zh_tw"@,
        }
    }

    /// All languages, in alphabetical order of their codes.
    pub open spec fn all() -> Seq<GameLanguages> {
        seq![
            GameLanguages::CS,
            GameLanguages::DE,
            GameLanguages::EN,
            GameLanguages::ES,
            GameLanguages::ES_MX,
            GameLanguages::FR,
            GameLanguages::IT,
            GameLanguages::JA,
            GameLanguages::KO,
            GameLanguages::NL,
            GameLanguages::PL,
            GameLanguages::PT,
            GameLanguages::PT_BR,
            GameLanguages::RU,
            GameLanguages::TH,
            GameLanguages::UK,
            GameLanguages::ZH,
            GameLanguages::ZH_SG,
            GameLanguages::ZH_TW,
        ]
    }

    /// The name of the folder that holds the texts of the language.
    pub fn to_folder_string(&self) -> (s: String)
        ensures
            s@ == self.code(),
    {
        match self {
            GameLanguages::CS => String::from_str("cs"),
            GameLanguages::DE => String::from_str("de"),
            GameLanguages::EN => String::from_str("en"),
            GameLanguages::ES => String::from_str("es"),
            GameLanguages::ES_MX => String::from_str("es_mx"),
            GameLanguages::FR => String::from_str("fr"),
            GameLanguages::IT => String::from_str("it"),
            GameLanguages::JA => String::from_str("ja"),
            GameLanguages::KO => String::from_str("ko"),
            GameLanguages::NL => String::from_str("nl"),
            GameLanguages::PL => String::from_str("pl"),
            GameLanguages::PT => String::from_str("pt"),
            GameLanguages::PT_BR => String::from_str("pt_br"),
            GameLanguages::RU => String::from_str("ru"),
            GameLanguages::TH => String::from_str("th"),
            GameLanguages::UK => String::from_str("uk"),
            GameLanguages::ZH => String::from_str("zh"),
            GameLanguages::ZH_SG => String::from_str("zh_sg"),
            GameLanguages::ZH_TW => String::from_str("zh_tw"),
        }
    }

    /// The name of the JSON file that the texts of the language are written
    /// to.
    pub fn to_filename(&self) -> (s: String)
        ensures
            s@ == self.code() + ".json"@,
    {
        let mut name = self.to_folder_string();
        name.append(".json");
        name
    }

    /// All languages.
    pub fn values() -> (all: Vec<GameLanguages>)
        ensures
            all@ == GameLanguages::all(),
    {
        let all = vec![
            GameLanguages::CS,
            GameLanguages::DE,
            GameLanguages::EN,
            GameLanguages::ES,
            GameLanguages::ES_MX,
            GameLanguages::FR,
            GameLanguages::IT,
            GameLanguages::JA,
            GameLanguages::KO,
            GameLanguages::NL,
            GameLanguages::PL,
            GameLanguages::PT,
            GameLanguages::PT_BR,
            GameLanguages::RU,
            GameLanguages::TH,
            GameLanguages::UK,
            GameLanguages::ZH,
            GameLanguages::ZH_SG,
            GameLanguages::ZH_TW,
        ];
        all
    }
}

/// A server of the game, which an installation belongs to.
#[derive(Debug, Clone, Copy, PartialEq, Eq, Hash, Structural)]
pub enum GameServer {
    /// The global servers.
    WW,
    /// The Chinese server.
    CN,
    /// The public test server.
    PT,
    /// Any other.
    XX,
}

impl GameServer {
    /// The server that an installation with the given id belongs to.
    pub open spec fn of_id(id: Seq<char>) -> GameServer {
        if id == "WOWS.WW.PRODUCTION"@ {
            GameServer::WW
        } else if id == "WOWS.CN.PRODUCTION"@ {
            GameServer::CN
        } else if id == "WOWS.PT.PRODUCTION"@ {
            GameServer::PT
        } else {
            GameServer::XX
        }
    }

    /// Classifies an installation by the id in its `game_info.xml`.
    pub fn from_string(value: &str) -> (server: GameServer)
        ensures
            server == GameServer::of_id(value@),
    {
        let value = value.to_owned();
        if value == String::from_str("WOWS.WW.PRODUCTION") {
            GameServer::WW
        } else if value == String::from_str("WOWS.CN.PRODUCTION") {
            GameServer::CN
        } else if value == String::from_str("WOWS.PT.PRODUCTION") {
            GameServer::PT
        } else {
            GameServer::XX
        }
    }

    /// The server with the given number: 0 is global, 1 Chinese, 2 public
    /// test.
    pub fn from_number(value: i32) -> (server: GameServer)
        ensures
            server == (if value == 0 {
                GameServer::WW
            } else if value == 1 {
                GameServer::CN
            } else if value == 2 {
                GameServer::PT
            } else {
                GameServer::XX
            }),
    {
        if value == 0 {
            GameServer::WW
        } else if value == 1 {
            GameServer::CN
        } else if value == 2 {
            GameServer::PT
        } else {
            GameServer::XX
        }
    }
}

/// Whether a publisher named in an uninstall entry is one of the game's.
pub open spec fn known_publisher(publisher: Seq<char>) -> bool {
    ||| publisher == "Wargaming.net"@
    ||| publisher == "Wargaming Group Limited"@
    ||| publisher == "360.cn"@
    ||| publisher == "Lesta Games"@
}

/// Tells whether a publisher named in an uninstall entry is one of the
/// game's.
pub fn is_known_publisher(publisher: &str) -> (r: bool)
    ensures
        r == known_publisher(publisher@),
{
    let publisher = publisher.to_owned();
    publisher == String::from_str("Wargaming.net") || publisher == String::from_str(
        "Wargaming Group Limited",
    ) || publisher == String::from_str("360.cn") || publisher == String::from_str("Lesta Games")
}

/// The installations found on this machine: for each server, the path of its
/// installation if there is one.
#[derive(Debug)]
pub struct GameDirectory {
    pub ww: Option<String>,
    pub cn: Option<String>,
    pub pt: Option<String>,
    pub xx: Option<String>,
}

/// The text of a path that may be missing.
pub open spec fn path_text(path: Option<String>) -> Option<Seq<char>> {
    match path {
        Some(path) => Some(path@),
        None => None,
    }
}

impl GameDirectory {
    /// The path of the installation of `server`, if one is known.
    pub open spec fn path_of(&self, server: GameServer) -> Option<Seq<char>> {
        match server {
            GameServer::WW => path_text(self.ww),
            GameServer::CN => path_text(self.cn),
            GameServer::PT => path_text(self.pt),
            GameServer::XX => path_text(self.xx),
        }
    }

    /// Those of the servers in `servers` that have an installation, in
    /// order.
    pub open spec fn installed(&self, servers: Seq<GameServer>) -> Seq<GameServer> {
        servers.filter(|server: GameServer| self.path_of(server) is Some)
    }

    /// The servers that an installation is looked up for when all are asked
    /// for: global, Chinese, public test.
    pub open spec fn listed() -> Seq<GameServer> {
        seq![GameServer::WW, GameServer::CN, GameServer::PT]
    }

    /// A directory that knows no installation.
    pub fn new() -> (directory: GameDirectory)
        ensures
            forall|server: GameServer| directory.path_of(server) is None,
    {
        GameDirectory { ww: None, cn: None, pt: None, xx: None }
    }

    /// Records the installation of `server`, in place of one recorded
    /// before.
    pub fn insert(&mut self, server: GameServer, path: String)
        ensures
            forall|other: GameServer|
                final(self).path_of(other) == if other == server {
                    Some(path@)
                } else {
                    old(self).path_of(other)
                },
    {
        match server {
            GameServer::WW => {
                self.ww = Some(path);
            },
            GameServer::CN => {
                self.cn = Some(path);
            },
            GameServer::PT => {
                self.pt = Some(path);
            },
            GameServer::XX => {
                self.xx = Some(path);
            },
        }
    }

    /// The path of the installation of `server`, if one is known.
    pub fn get_game_directory(&self, server: &GameServer) -> (r: Option<String>)
        ensures
            path_text(r) == self.path_of(*server),
    {
        let slot = match server {
            GameServer::WW => &self.ww,
            GameServer::CN => &self.cn,
            GameServer::PT => &self.pt,
            GameServer::XX => &self.xx,
        };
        match slot {
            Some(path) => Some(path.clone()),
            None => None,
        }
    }

    /// The global, Chinese and public test servers that have an
    /// installation, in this order.
    pub fn available_server(&self) -> (servers: Vec<GameServer>)
        ensures
            servers@ == self.installed(GameDirectory::listed()),
    {
        let mut servers: Vec<GameServer> = Vec::new();
        if self.ww.is_some() {
            servers.push(GameServer::WW);
        }
        if self.cn.is_some() {
            servers.push(GameServer::CN);
        }
        if self.pt.is_some() {
            servers.push(GameServer::PT);
        }
        proof {
            self.lemma_installed_listed();
        }
        servers
    }

    /// The paths of the installations of the global, Chinese and public test
    /// servers, in this order.
    pub fn available_path(&self) -> (paths: Vec<String>)
        ensures
            paths@.len() == self.installed(GameDirectory::listed()).len(),
            forall|i: int|
                0 <= i < paths@.len() ==> Some((#[trigger] paths@[i])@) == self.path_of(
                    self.installed(GameDirectory::listed())[i],
                ),
    {
        let mut paths: Vec<String> = Vec::new();
        match &self.ww {
            Some(path) => {
                paths.push(path.clone());
            },
            None => {},
        }
        match &self.cn {
            Some(path) => {
                paths.push(path.clone());
            },
            None => {},
        }
        match &self.pt {
            Some(path) => {
                paths.push(path.clone());
            },
            None => {},
        }
        proof {
            self.lemma_installed_listed();
        }
        paths
    }

    /// The installed ones among the listed servers, written out.
    pub proof fn lemma_installed_listed(&self)
        ensures
            self.installed(GameDirectory::listed()) == (if self.ww is Some {
                seq![GameServer::WW]
            } else {
                Seq::<GameServer>::empty()
            }) + (if self.cn is Some {
                seq![GameServer::CN]
            } else {
                Seq::<GameServer>::empty()
            }) + (if self.pt is Some {
                seq![GameServer::PT]
            } else {
                Seq::<GameServer>::empty()
            }),
    {
        let keep = |server: GameServer| self.path_of(server) is Some;
        let all = GameDirectory::listed();
        let one = seq![GameServer::WW];
        let two = seq![GameServer::WW, GameServer::CN];
        reveal(Seq::filter);
        assert(one.drop_last() =~= Seq::<GameServer>::empty());
        assert(two.drop_last() =~= one);
        assert(all.drop_last() =~= two);
        assert(two.filter(keep) =~= one.filter(keep) + (if self.cn is Some {
            seq![GameServer::CN]
        } else {
            Seq::<GameServer>::empty()
        }));
    }
}

/// Whether the tag `<id>`, which opens the id of an installation in its
/// `game_info.xml`, stands at `at` in `xml`.
pub open spec fn tag_at(xml: Seq<char>, at: int) -> bool {
    &&& 0 <= at
    &&& at + 4 <= xml.len()
    &&& xml[at] == '<'
    &&& xml[at + 1] == 'i'
    &&& xml[at + 2] == 'd'
    &&& xml[at + 3] == '>'
}

/// Whether the id of the installation stands in `xml` from `start` to `end`:
/// right behind the first id tag, up to the next `<`.
pub open spec fn id_span(xml: Seq<char>, start: int, end: int) -> bool {
    &&& tag_at(xml, start - 4)
    &&& forall|j: int| 0 <= j < start - 4 ==> !tag_at(xml, j)
    &&& start <= end < xml.len()
    &&& xml[end] == '<'
    &&& forall|k: int| start <= k < end ==> xml[k] != '<'
}

/// Finds the id of an installation in the text of its `game_info.xml`: what
/// stands between the first `<id>` and the next `<`. There is none when the
/// text has no `<id>`, or no `<` behind it.
pub fn find_game_id(xml: &str) -> (r: Option<String>)
    ensures
        match r {
            Some(id) => exists|start: int, end: int|
                id_span(xml@, start, end) && id@ == xml@.subrange(start, end),
            None => forall|start: int, end: int| !id_span(xml@, start, end),
        },
{
    let chars = characters(xml);
    let len = chars.len();
    let mut at: usize = 0;
    while at < len && !(len - at >= 4 && chars[at] == '<' && chars[at + 1] == 'i' && chars[at + 2]
        == 'd' && chars[at + 3] == '>')
        invariant
            at <= len,
            len == chars@.len(),
            chars@ == xml@,
            forall|j: int| 0 <= j < at ==> !tag_at(xml@, j),
        decreases len - at,
    {
        at = at + 1;
    }
    if at == len {
        return None;
    }
    let start = at + 4;
    let mut end = start;
    while end < len && chars[end] != '<'
        invariant
            start <= end <= len,
            len == chars@.len(),
            chars@ == xml@,
            forall|k: int| start <= k < end ==> xml@[k] != '<',
        decreases len - end,
    {
        end = end + 1;
    }
    if end == len {
        return None;
    }
    let mut id = String::new();
    let mut k = start;
    while k < end
        invariant
            start <= k <= end <= len,
            len == chars@.len(),
            chars@ == xml@,
            id@ == xml@.subrange(start as int, k as int),
        decreases end - k,
    {
        id.push(chars[k]);
        k = k + 1;
    }
    Some(id)
}

} // verus!
