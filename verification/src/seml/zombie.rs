//! Zombie type tables: the integer ids the emulator uses, the Chinese
//! one-character and English four-letter abbreviations, the types a scenario
//! may name, the types each scene bans, and display names.
use vstd::prelude::*;
use crate::text::{chars_of, eq_chars, eq_str, int_chars, int_text, string_of};

verus! {

pub const ZOMBIE: i32 = 0x0;
pub const FLAG: i32 = 0x1;
pub const CONEHEAD: i32 = 0x2;
pub const POLE_VAULTING: i32 = 0x3;
pub const BUCKETHEAD: i32 = 0x4;
pub const NEWSPAPER: i32 = 0x5;
pub const SCREENDOOR: i32 = 0x6;
pub const FOOTBALL: i32 = 0x7;
pub const DANCING: i32 = 0x8;
pub const BACKUP_DANCER: i32 = 0x9;
pub const DUCKY_TUBE: i32 = 0xa;
pub const SNORKEL: i32 = 0xb;
pub const ZOMBONI: i32 = 0xc;
pub const DOLPHIN_RIDER: i32 = 0xe;
pub const JACK_IN_THE_BOX: i32 = 0xf;
pub const BALLOON: i32 = 0x10;
pub const DIGGER: i32 = 0x11;
pub const POGO: i32 = 0x12;
pub const YETI: i32 = 0x13;
pub const BUNGEE: i32 = 0x14;
pub const LADDER: i32 = 0x15;
pub const CATAPULT: i32 = 0x16;
pub const GARGANTUAR: i32 = 0x17;
pub const IMP: i32 = 0x18;
pub const GIGA_GARGANTUAR: i32 = 0x20;

/// Chinese one-character abbreviation to type id, in table order.
pub open spec fn cn_abbr_spec() -> Seq<(&'static str, i32)> {
    seq![
        ("普", ZOMBIE),
        ("旗", FLAG),
        ("障", CONEHEAD),
        ("杆", POLE_VAULTING),
        ("桶", BUCKETHEAD),
        ("报", NEWSPAPER),
        ("门", SCREENDOOR),
        ("橄", FOOTBALL),
        ("舞", DANCING),
        ("伴", BACKUP_DANCER),
        ("鸭", DUCKY_TUBE),
        ("潜", SNORKEL),
        ("车", ZOMBONI),
        ("豚", DOLPHIN_RIDER),
        ("丑", JACK_IN_THE_BOX),
        ("气", BALLOON),
        ("矿", DIGGER),
        ("跳", POGO),
        ("雪", YETI),
        ("偷", BUNGEE),
        ("梯", LADDER),
        ("篮", CATAPULT),
        ("白", GARGANTUAR),
        ("鬼", IMP),
        ("红", GIGA_GARGANTUAR),
    ]
}

/// English four-letter abbreviation to type id, in table order.
pub open spec fn en_abbr_spec() -> Seq<(&'static str, i32)> {
    seq![
        ("regu", ZOMBIE),
        ("flag", FLAG),
        ("cone", CONEHEAD),
        ("pole", POLE_VAULTING),
        ("buck", BUCKETHEAD),
        ("news", NEWSPAPER),
        ("scre", SCREENDOOR),
        ("foot", FOOTBALL),
        ("danc", DANCING),
        ("back", BACKUP_DANCER),
        ("duck", DUCKY_TUBE),
        ("snor", SNORKEL),
        ("zomb", ZOMBONI),
        ("dolp", DOLPHIN_RIDER),
        ("jack", JACK_IN_THE_BOX),
        ("ball", BALLOON),
        ("digg", DIGGER),
        ("pogo", POGO),
        ("yeti", YETI),
        ("bung", BUNGEE),
        ("ladd", LADDER),
        ("cata", CATAPULT),
        ("garg", GARGANTUAR),
        ("imp", IMP),
        ("giga", GIGA_GARGANTUAR),
    ]
}

/// Types a `require:` / `ban:` header may name.
pub open spec fn acceptable_spec() -> Seq<i32> {
    seq![
        POLE_VAULTING,
        BUCKETHEAD,
        NEWSPAPER,
        SCREENDOOR,
        FOOTBALL,
        DANCING,
        SNORKEL,
        ZOMBONI,
        DOLPHIN_RIDER,
        JACK_IN_THE_BOX,
        BALLOON,
        DIGGER,
        POGO,
        BUNGEE,
        LADDER,
        CATAPULT,
        GARGANTUAR,
        GIGA_GARGANTUAR,
    ]
}

/// Value of the first entry whose key reads `k`.
pub open spec fn table_lookup(t: Seq<(&'static str, i32)>, k: Seq<char>) -> Option<i32>
    decreases t.len(),
{
    if t.len() == 0 {
        None
    } else if t[0].0@ == k {
        Some(t[0].1)
    } else {
        table_lookup(t.drop_first(), k)
    }
}

pub fn cn_abbr() -> (r: Vec<(&'static str, i32)>)
    ensures
        r@ == cn_abbr_spec(),
{
    let r = vec![
        ("普", ZOMBIE),
        ("旗", FLAG),
        ("障", CONEHEAD),
        ("杆", POLE_VAULTING),
        ("桶", BUCKETHEAD),
        ("报", NEWSPAPER),
        ("门", SCREENDOOR),
        ("橄", FOOTBALL),
        ("舞", DANCING),
        ("伴", BACKUP_DANCER),
        ("鸭", DUCKY_TUBE),
        ("潜", SNORKEL),
        ("车", ZOMBONI),
        ("豚", DOLPHIN_RIDER),
        ("丑", JACK_IN_THE_BOX),
        ("气", BALLOON),
        ("矿", DIGGER),
        ("跳", POGO),
        ("雪", YETI),
        ("偷", BUNGEE),
        ("梯", LADDER),
        ("篮", CATAPULT),
        ("白", GARGANTUAR),
        ("鬼", IMP),
        ("红", GIGA_GARGANTUAR),
    ];
    assert(r@ =~= cn_abbr_spec());
    r
}

pub fn en_abbr() -> (r: Vec<(&'static str, i32)>)
    ensures
        r@ == en_abbr_spec(),
{
    let r = vec![
        ("regu", ZOMBIE),
        ("flag", FLAG),
        ("cone", CONEHEAD),
        ("pole", POLE_VAULTING),
        ("buck", BUCKETHEAD),
        ("news", NEWSPAPER),
        ("scre", SCREENDOOR),
        ("foot", FOOTBALL),
        ("danc", DANCING),
        ("back", BACKUP_DANCER),
        ("duck", DUCKY_TUBE),
        ("snor", SNORKEL),
        ("zomb", ZOMBONI),
        ("dolp", DOLPHIN_RIDER),
        ("jack", JACK_IN_THE_BOX),
        ("ball", BALLOON),
        ("digg", DIGGER),
        ("pogo", POGO),
        ("yeti", YETI),
        ("bung", BUNGEE),
        ("ladd", LADDER),
        ("cata", CATAPULT),
        ("garg", GARGANTUAR),
        ("imp", IMP),
        ("giga", GIGA_GARGANTUAR),
    ];
    assert(r@ =~= en_abbr_spec());
    r
}

pub fn acceptable() -> (r: Vec<i32>)
    ensures
        r@ == acceptable_spec(),
{
    let r = vec![
        POLE_VAULTING,
        BUCKETHEAD,
        NEWSPAPER,
        SCREENDOOR,
        FOOTBALL,
        DANCING,
        SNORKEL,
        ZOMBONI,
        DOLPHIN_RIDER,
        JACK_IN_THE_BOX,
        BALLOON,
        DIGGER,
        POGO,
        BUNGEE,
        LADDER,
        CATAPULT,
        GARGANTUAR,
        GIGA_GARGANTUAR,
    ];
    assert(r@ =~= acceptable_spec());
    r
}

fn lookup_in(t: &Vec<(&'static str, i32)>, k: &[char]) -> (r: Option<i32>)
    ensures
        r == table_lookup(t@, k@),
{
    let mut i: usize = 0;
    assert(t@.skip(0) =~= t@);
    while i < t.len()
        invariant
            i <= t@.len(),
            table_lookup(t@, k@) == table_lookup(t@.skip(i as int), k@),
        decreases t@.len() - i,
    {
        let (key, v) = t[i];
        assert(t@.skip(i as int).drop_first() =~= t@.skip(i + 1));
        if eq_str(k, key) {
            return Some(v);
        }
        i = i + 1;
    }
    assert(t@.skip(i as int).len() == 0);
    None
}

pub open spec fn cn_lookup_spec(abbr: Seq<char>) -> Option<i32> {
    table_lookup(cn_abbr_spec(), abbr)
}

pub open spec fn en_lookup_spec(abbr: Seq<char>) -> Option<i32> {
    table_lookup(en_abbr_spec(), abbr)
}

pub fn cn_lookup_chars(abbr: &[char]) -> (r: Option<i32>)
    ensures
        r == cn_lookup_spec(abbr@),
{
    let t = cn_abbr();
    assert(t@.skip(0) =~= t@);
    lookup_in(&t, abbr)
}

pub fn en_lookup_chars(abbr: &[char]) -> (r: Option<i32>)
    ensures
        r == en_lookup_spec(abbr@),
{
    let t = en_abbr();
    assert(t@.skip(0) =~= t@);
    lookup_in(&t, abbr)
}

pub fn cn_lookup(abbr: &str) -> (r: Option<i32>)
    ensures
        r == cn_lookup_spec(abbr@),
{
    let v = chars_of(abbr);
    cn_lookup_chars(v.as_slice())
}

pub fn en_lookup(abbr: &str) -> (r: Option<i32>)
    ensures
        r == en_lookup_spec(abbr@),
{
    let v = chars_of(abbr);
    en_lookup_chars(v.as_slice())
}

/// The English abbreviations, in table order.
pub fn en_keys() -> (r: Vec<&'static str>)
    ensures
        r@.len() == en_abbr_spec().len(),
        forall|i: int| 0 <= i < r@.len() ==> r@[i] == (#[trigger] en_abbr_spec()[i]).0,
{
    let t = en_abbr();
    let mut r: Vec<&'static str> = Vec::new();
    let mut i: usize = 0;
    while i < t.len()
        invariant
            i <= t@.len(),
            t@ == en_abbr_spec(),
            r@.len() == i,
            forall|j: int| 0 <= j < i ==> r@[j] == (#[trigger] en_abbr_spec()[j]).0,
        decreases t@.len() - i,
    {
        r.push(t[i].0);
        i = i + 1;
    }
    r
}

/// Types banned in a scene, by the scene code as written.
pub open spec fn banned_spec(scene: Seq<char>) -> Seq<i32> {
    if scene == "DE"@ {
        seq![SNORKEL, DOLPHIN_RIDER]
    } else if scene == "NE"@ {
        seq![SNORKEL, ZOMBONI, DOLPHIN_RIDER]
    } else if scene == "RE"@ || scene == "ME"@ {
        seq![DANCING, SNORKEL, DOLPHIN_RIDER, DIGGER]
    } else {
        seq![]
    }
}

pub fn banned_chars(scene: &[char]) -> (r: Vec<i32>)
    ensures
        r@ == banned_spec(scene@),
{
    let r = if eq_str(scene, "DE") {
        vec![SNORKEL, DOLPHIN_RIDER]
    } else if eq_str(scene, "NE") {
        vec![SNORKEL, ZOMBONI, DOLPHIN_RIDER]
    } else if eq_str(scene, "RE") || eq_str(scene, "ME") {
        vec![DANCING, SNORKEL, DOLPHIN_RIDER, DIGGER]
    } else {
        Vec::new()
    };
    assert(r@ =~= banned_spec(scene@));
    r
}

/// Banned zombie types per scene code as written.
pub fn banned(scene: &str) -> (r: Vec<i32>)
    ensures
        r@ == banned_spec(scene@),
{
    let v = chars_of(scene);
    banned_chars(v.as_slice())
}

/// The one-character display glyph of a type, for the types that have one.
pub open spec fn glyph_spec(id: i32) -> Option<&'static str> {
    if id == ZOMBIE {
        Some("普")
    } else if id == CONEHEAD {
        Some("障")
    } else if id == POLE_VAULTING {
        Some("杆")
    } else if id == BUCKETHEAD {
        Some("桶")
    } else if id == NEWSPAPER {
        Some("报")
    } else if id == SCREENDOOR {
        Some("门")
    } else if id == FOOTBALL {
        Some("橄")
    } else if id == DANCING {
        Some("舞")
    } else if id == SNORKEL {
        Some("潜")
    } else if id == ZOMBONI {
        Some("车")
    } else if id == DOLPHIN_RIDER {
        Some("豚")
    } else if id == JACK_IN_THE_BOX {
        Some("丑")
    } else if id == BALLOON {
        Some("气")
    } else if id == DIGGER {
        Some("矿")
    } else if id == POGO {
        Some("跳")
    } else if id == BUNGEE {
        Some("偷")
    } else if id == LADDER {
        Some("梯")
    } else if id == CATAPULT {
        Some("篮")
    } else if id == GARGANTUAR {
        Some("白")
    } else if id == GIGA_GARGANTUAR {
        Some("红")
    } else {
        None
    }
}

fn glyph(id: i32) -> (r: Option<&'static str>)
    ensures
        r == glyph_spec(id),
{
    if id == ZOMBIE {
        Some("普")
    } else if id == CONEHEAD {
        Some("障")
    } else if id == POLE_VAULTING {
        Some("杆")
    } else if id == BUCKETHEAD {
        Some("桶")
    } else if id == NEWSPAPER {
        Some("报")
    } else if id == SCREENDOOR {
        Some("门")
    } else if id == FOOTBALL {
        Some("橄")
    } else if id == DANCING {
        Some("舞")
    } else if id == SNORKEL {
        Some("潜")
    } else if id == ZOMBONI {
        Some("车")
    } else if id == DOLPHIN_RIDER {
        Some("豚")
    } else if id == JACK_IN_THE_BOX {
        Some("丑")
    } else if id == BALLOON {
        Some("气")
    } else if id == DIGGER {
        Some("矿")
    } else if id == POGO {
        Some("跳")
    } else if id == BUNGEE {
        Some("偷")
    } else if id == LADDER {
        Some("梯")
    } else if id == CATAPULT {
        Some("篮")
    } else if id == GARGANTUAR {
        Some("白")
    } else if id == GIGA_GARGANTUAR {
        Some("红")
    } else {
        None
    }
}

/// Display name of a type: its glyph, or the decimal id for types without one.
pub open spec fn name_spec(id: i32) -> Seq<char> {
    match glyph_spec(id) {
        Some(g) => g@,
        None => int_text(id as int),
    }
}

/// id -> display name (CN single char); the numeric id for types without one.
pub fn name(id: i32) -> (r: String)
    ensures
        r@ == name_spec(id),
{
    match glyph(id) {
        Some(g) => g.to_owned(),
        None => {
            let v = int_chars(id as i128);
            string_of(v.as_slice())
        },
    }
}

/// Output language of display names.
#[derive(Clone, Copy, PartialEq, Eq, Debug)]
pub enum Lang {
    Zh,
    En,
}

/// The language that a name selects: `en` or `zh`, nothing else.
pub open spec fn lang_named(s: Seq<char>) -> Option<Lang> {
    if s == "en"@ {
        Some(Lang::En)
    } else if s == "zh"@ {
        Some(Lang::Zh)
    } else {
        None
    }
}

/// The output language: the flag where it names one, else the environment
/// setting where it names one, else Chinese.
pub open spec fn locale_spec(flag: Option<Seq<char>>, env: Option<Seq<char>>) -> Lang {
    match (match flag {
        Some(f) => lang_named(f),
        None => None,
    }) {
        Some(l) => l,
        None => match (match env {
            Some(e) => lang_named(e),
            None => None,
        }) {
            Some(l) => l,
            None => Lang::Zh,
        },
    }
}

fn lang_of(s: &str) -> (r: Option<Lang>)
    ensures
        r == lang_named(s@),
{
    let c = chars_of(s);
    if eq_str(c.as_slice(), "en") {
        proof {
            reveal_strlit("en");
        }
        Some(Lang::En)
    } else if eq_str(c.as_slice(), "zh") {
        proof {
            reveal_strlit("zh");
            reveal_strlit("en");
        }
        Some(Lang::Zh)
    } else {
        None
    }
}

/// Picks the output language from the `--lang` flag and the `PUC_LANG`
/// setting, which the caller reads; an unknown name counts as absent.
pub fn resolve_locale(flag: Option<&str>, env: Option<&str>) -> (r: Lang)
    ensures
        r == locale_spec(
            match flag {
                Some(f) => Some(f@),
                None => None,
            },
            match env {
                Some(e) => Some(e@),
                None => None,
            },
        ),
{
    let from_flag = match flag {
        Some(f) => lang_of(f),
        None => None,
    };
    match from_flag {
        Some(l) => l,
        None => {
            let from_env = match env {
                Some(e) => lang_of(e),
                None => None,
            };
            match from_env {
                Some(l) => l,
                None => Lang::Zh,
            }
        },
    }
}

/// The English abbreviation of a type that has a Chinese glyph.
pub open spec fn en_name_spec(id: i32) -> Seq<char> {
    match glyph_spec(id) {
        Some(_) => match first_key_of(en_abbr_spec(), id) {
            Some(k) => k@,
            None => int_text(id as int),
        },
        None => int_text(id as int),
    }
}

/// Key of the first entry whose value is `v`.
pub open spec fn first_key_of(t: Seq<(&'static str, i32)>, v: i32) -> Option<&'static str>
    decreases t.len(),
{
    if t.len() == 0 {
        None
    } else if t[0].1 == v {
        Some(t[0].0)
    } else {
        first_key_of(t.drop_first(), v)
    }
}

fn key_of(t: &Vec<(&'static str, i32)>, v: i32) -> (r: Option<&'static str>)
    ensures
        r == first_key_of(t@, v),
{
    let mut i: usize = 0;
    assert(t@.skip(0) =~= t@);
    while i < t.len()
        invariant
            i <= t@.len(),
            first_key_of(t@, v) == first_key_of(t@.skip(i as int), v),
        decreases t@.len() - i,
    {
        assert(t@.skip(i as int).drop_first() =~= t@.skip(i + 1));
        if t[i].1 == v {
            return Some(t[i].0);
        }
        i = i + 1;
    }
    assert(t@.skip(i as int).len() == 0);
    None
}

/// Display name for the clean-table output: the glyph in Chinese, the
/// four-letter abbreviation in English; the numeric id for types without a glyph.
pub fn name_i18n(id: i32, lang: Lang) -> (r: String)
    ensures
        r@ == (match lang {
            Lang::Zh => name_spec(id),
            Lang::En => en_name_spec(id),
        }),
{
    match lang {
        Lang::Zh => name(id),
        Lang::En => match glyph(id) {
            Some(_) => {
                let t = en_abbr();
                match key_of(&t, id) {
                    Some(k) => k.to_owned(),
                    None => {
                        let v = int_chars(id as i128);
                        string_of(v.as_slice())
                    },
                }
            },
            None => {
                let v = int_chars(id as i128);
                string_of(v.as_slice())
            },
        },
    }
}


/// `table_lookup` from index `i` on.
spec fn lookup_from(t: Seq<(&'static str, i32)>, k: Seq<char>, i: int) -> Option<i32>
    decreases t.len() - i,
{
    if i >= t.len() || i < 0 {
        None
    } else if t[i].0@ == k {
        Some(t[i].1)
    } else {
        lookup_from(t, k, i + 1)
    }
}

proof fn lemma_lookup_from(t: Seq<(&'static str, i32)>, k: Seq<char>, i: int)
    requires
        0 <= i <= t.len(),
    ensures
        table_lookup(t.subrange(i, t.len() as int), k) == lookup_from(t, k, i),
    decreases t.len() - i,
{
    let s = t.subrange(i, t.len() as int);
    if i < t.len() {
        assert(s[0] == t[i]);
        assert(s.drop_first() =~= t.subrange(i + 1, t.len() as int));
        lemma_lookup_from(t, k, i + 1);
    }
}

proof fn lemma_one_char_texts()
    ensures
        forall|a: char, b: char| #![trigger seq![a], seq![b]] seq![a] == seq![b] ==> a == b,
{
    assert forall|a: char, b: char| #![trigger seq![a], seq![b]] seq![a] == seq![b] implies a == b by {
        assert(seq![a][0] == seq![b][0]);
    }
}

/// Each Chinese abbreviation is one character, as listed.
proof fn lemma_cn_keys()
    ensures
        cn_abbr_spec().len() == 25,
        cn_abbr_spec()[0].0@ == seq!['普'],
        cn_abbr_spec()[1].0@ == seq!['旗'],
        cn_abbr_spec()[2].0@ == seq!['障'],
        cn_abbr_spec()[3].0@ == seq!['杆'],
        cn_abbr_spec()[4].0@ == seq!['桶'],
        cn_abbr_spec()[5].0@ == seq!['报'],
        cn_abbr_spec()[6].0@ == seq!['门'],
        cn_abbr_spec()[7].0@ == seq!['橄'],
        cn_abbr_spec()[8].0@ == seq!['舞'],
        cn_abbr_spec()[9].0@ == seq!['伴'],
        cn_abbr_spec()[10].0@ == seq!['鸭'],
        cn_abbr_spec()[11].0@ == seq!['潜'],
        cn_abbr_spec()[12].0@ == seq!['车'],
        cn_abbr_spec()[13].0@ == seq!['豚'],
        cn_abbr_spec()[14].0@ == seq!['丑'],
        cn_abbr_spec()[15].0@ == seq!['气'],
        cn_abbr_spec()[16].0@ == seq!['矿'],
        cn_abbr_spec()[17].0@ == seq!['跳'],
        cn_abbr_spec()[18].0@ == seq!['雪'],
        cn_abbr_spec()[19].0@ == seq!['偷'],
        cn_abbr_spec()[20].0@ == seq!['梯'],
        cn_abbr_spec()[21].0@ == seq!['篮'],
        cn_abbr_spec()[22].0@ == seq!['白'],
        cn_abbr_spec()[23].0@ == seq!['鬼'],
        cn_abbr_spec()[24].0@ == seq!['红'],
{
    reveal_strlit("普");
    assert("普"@ =~= seq!['普']);
    reveal_strlit("旗");
    assert("旗"@ =~= seq!['旗']);
    reveal_strlit("障");
    assert("障"@ =~= seq!['障']);
    reveal_strlit("杆");
    assert("杆"@ =~= seq!['杆']);
    reveal_strlit("桶");
    assert("桶"@ =~= seq!['桶']);
    reveal_strlit("报");
    assert("报"@ =~= seq!['报']);
    reveal_strlit("门");
    assert("门"@ =~= seq!['门']);
    reveal_strlit("橄");
    assert("橄"@ =~= seq!['橄']);
    reveal_strlit("舞");
    assert("舞"@ =~= seq!['舞']);
    reveal_strlit("伴");
    assert("伴"@ =~= seq!['伴']);
    reveal_strlit("鸭");
    assert("鸭"@ =~= seq!['鸭']);
    reveal_strlit("潜");
    assert("潜"@ =~= seq!['潜']);
    reveal_strlit("车");
    assert("车"@ =~= seq!['车']);
    reveal_strlit("豚");
    assert("豚"@ =~= seq!['豚']);
    reveal_strlit("丑");
    assert("丑"@ =~= seq!['丑']);
    reveal_strlit("气");
    assert("气"@ =~= seq!['气']);
    reveal_strlit("矿");
    assert("矿"@ =~= seq!['矿']);
    reveal_strlit("跳");
    assert("跳"@ =~= seq!['跳']);
    reveal_strlit("雪");
    assert("雪"@ =~= seq!['雪']);
    reveal_strlit("偷");
    assert("偷"@ =~= seq!['偷']);
    reveal_strlit("梯");
    assert("梯"@ =~= seq!['梯']);
    reveal_strlit("篮");
    assert("篮"@ =~= seq!['篮']);
    reveal_strlit("白");
    assert("白"@ =~= seq!['白']);
    reveal_strlit("鬼");
    assert("鬼"@ =~= seq!['鬼']);
    reveal_strlit("红");
    assert("红"@ =~= seq!['红']);
}

/// Looking up a type's glyph among the Chinese abbreviations gives the type
/// back; a type without a glyph is named by its number.
#[verifier::rlimit(60)]
pub proof fn lemma_glyph_round_trip(id: i32)
    ensures
        glyph_spec(id) is Some ==> name_spec(id).len() == 1 && cn_lookup_spec(name_spec(id)) == Some(id),
        glyph_spec(id) is None ==> name_spec(id) == int_text(id as int),
{
    lemma_cn_keys();
    lemma_one_char_texts();
    let t = cn_abbr_spec();
    lemma_lookup_from(t, name_spec(id), 0);
    assert(t.subrange(0, t.len() as int) =~= t);
    reveal_with_fuel(lookup_from, 26);
}

/// The four-character text `abcd`.
spec fn text4(a: char, b: char, c: char, d: char) -> Seq<char> {
    seq![a, b, c, d]
}

proof fn lemma_texts_of_chars()
    ensures
        forall|a1: char, a2: char, a3: char, a4: char, b1: char, b2: char, b3: char, b4: char|
            #![trigger text4(a1, a2, a3, a4), text4(b1, b2, b3, b4)]
            text4(a1, a2, a3, a4) == text4(b1, b2, b3, b4) ==> a1 == b1 && a2 == b2 && a3 == b3
                && a4 == b4,
        forall|a1: char, a2: char, a3: char, a4: char| #[trigger] text4(a1, a2, a3, a4).len() == 4,
{
    assert forall|a1: char, a2: char, a3: char, a4: char, b1: char, b2: char, b3: char, b4: char|
        #![trigger text4(a1, a2, a3, a4), text4(b1, b2, b3, b4)]
        text4(a1, a2, a3, a4) == text4(b1, b2, b3, b4) implies a1 == b1 && a2 == b2 && a3 == b3
            && a4 == b4 by {
        let x = text4(a1, a2, a3, a4);
        let y = text4(b1, b2, b3, b4);
        assert(x[0] == y[0] && x[1] == y[1] && x[2] == y[2] && x[3] == y[3]);
    }
}

/// The English abbreviations, as listed.
proof fn lemma_en_keys_text()
    ensures
        en_abbr_spec().len() == 25,
        en_abbr_spec()[0].0@ == text4('r', 'e', 'g', 'u'),
        en_abbr_spec()[1].0@ == text4('f', 'l', 'a', 'g'),
        en_abbr_spec()[2].0@ == text4('c', 'o', 'n', 'e'),
        en_abbr_spec()[3].0@ == text4('p', 'o', 'l', 'e'),
        en_abbr_spec()[4].0@ == text4('b', 'u', 'c', 'k'),
        en_abbr_spec()[5].0@ == text4('n', 'e', 'w', 's'),
        en_abbr_spec()[6].0@ == text4('s', 'c', 'r', 'e'),
        en_abbr_spec()[7].0@ == text4('f', 'o', 'o', 't'),
        en_abbr_spec()[8].0@ == text4('d', 'a', 'n', 'c'),
        en_abbr_spec()[9].0@ == text4('b', 'a', 'c', 'k'),
        en_abbr_spec()[10].0@ == text4('d', 'u', 'c', 'k'),
        en_abbr_spec()[11].0@ == text4('s', 'n', 'o', 'r'),
        en_abbr_spec()[12].0@ == text4('z', 'o', 'm', 'b'),
        en_abbr_spec()[13].0@ == text4('d', 'o', 'l', 'p'),
        en_abbr_spec()[14].0@ == text4('j', 'a', 'c', 'k'),
        en_abbr_spec()[15].0@ == text4('b', 'a', 'l', 'l'),
        en_abbr_spec()[16].0@ == text4('d', 'i', 'g', 'g'),
        en_abbr_spec()[17].0@ == text4('p', 'o', 'g', 'o'),
        en_abbr_spec()[18].0@ == text4('y', 'e', 't', 'i'),
        en_abbr_spec()[19].0@ == text4('b', 'u', 'n', 'g'),
        en_abbr_spec()[20].0@ == text4('l', 'a', 'd', 'd'),
        en_abbr_spec()[21].0@ == text4('c', 'a', 't', 'a'),
        en_abbr_spec()[22].0@ == text4('g', 'a', 'r', 'g'),
        en_abbr_spec()[23].0@ == seq!['i', 'm', 'p'],
        en_abbr_spec()[24].0@ == text4('g', 'i', 'g', 'a'),
{
    reveal_strlit("regu");
    assert("regu"@ =~= text4('r', 'e', 'g', 'u'));
    reveal_strlit("flag");
    assert("flag"@ =~= text4('f', 'l', 'a', 'g'));
    reveal_strlit("cone");
    assert("cone"@ =~= text4('c', 'o', 'n', 'e'));
    reveal_strlit("pole");
    assert("pole"@ =~= text4('p', 'o', 'l', 'e'));
    reveal_strlit("buck");
    assert("buck"@ =~= text4('b', 'u', 'c', 'k'));
    reveal_strlit("news");
    assert("news"@ =~= text4('n', 'e', 'w', 's'));
    reveal_strlit("scre");
    assert("scre"@ =~= text4('s', 'c', 'r', 'e'));
    reveal_strlit("foot");
    assert("foot"@ =~= text4('f', 'o', 'o', 't'));
    reveal_strlit("danc");
    assert("danc"@ =~= text4('d', 'a', 'n', 'c'));
    reveal_strlit("back");
    assert("back"@ =~= text4('b', 'a', 'c', 'k'));
    reveal_strlit("duck");
    assert("duck"@ =~= text4('d', 'u', 'c', 'k'));
    reveal_strlit("snor");
    assert("snor"@ =~= text4('s', 'n', 'o', 'r'));
    reveal_strlit("zomb");
    assert("zomb"@ =~= text4('z', 'o', 'm', 'b'));
    reveal_strlit("dolp");
    assert("dolp"@ =~= text4('d', 'o', 'l', 'p'));
    reveal_strlit("jack");
    assert("jack"@ =~= text4('j', 'a', 'c', 'k'));
    reveal_strlit("ball");
    assert("ball"@ =~= text4('b', 'a', 'l', 'l'));
    reveal_strlit("digg");
    assert("digg"@ =~= text4('d', 'i', 'g', 'g'));
    reveal_strlit("pogo");
    assert("pogo"@ =~= text4('p', 'o', 'g', 'o'));
    reveal_strlit("yeti");
    assert("yeti"@ =~= text4('y', 'e', 't', 'i'));
    reveal_strlit("bung");
    assert("bung"@ =~= text4('b', 'u', 'n', 'g'));
    reveal_strlit("ladd");
    assert("ladd"@ =~= text4('l', 'a', 'd', 'd'));
    reveal_strlit("cata");
    assert("cata"@ =~= text4('c', 'a', 't', 'a'));
    reveal_strlit("garg");
    assert("garg"@ =~= text4('g', 'a', 'r', 'g'));
    reveal_strlit("imp");
    assert("imp"@ =~= seq!['i', 'm', 'p']);
    reveal_strlit("giga");
    assert("giga"@ =~= text4('g', 'i', 'g', 'a'));
}

/// Every listed English key is found, and gives the type listed with it:
/// the keys are distinct, so no key hides behind an earlier one.
#[verifier::rlimit(80)]
pub proof fn lemma_en_keys_found(i: int)
    requires
        0 <= i < en_abbr_spec().len(),
    ensures
        en_lookup_spec(en_abbr_spec()[i].0@) == Some(en_abbr_spec()[i].1),
{
    lemma_en_keys_text();
    lemma_texts_of_chars();
    let t = en_abbr_spec();
    lemma_lookup_from(t, t[i].0@, 0);
    assert(t.subrange(0, t.len() as int) =~= t);
    reveal_with_fuel(lookup_from, 26);
}

/// A text the English lookup finds is one of the listed keys, and the type it
/// gives is the one listed with that key.
pub proof fn lemma_en_lookup_only_keys(k: Seq<char>)
    ensures
        en_lookup_spec(k) matches Some(v) ==> exists|i: int|
            0 <= i < en_abbr_spec().len() && #[trigger] en_abbr_spec()[i].0@ == k && en_abbr_spec()[i].1
                == v,
{
    lemma_lookup_keys(en_abbr_spec(), k);
}

proof fn lemma_lookup_keys(t: Seq<(&'static str, i32)>, k: Seq<char>)
    ensures
        table_lookup(t, k) matches Some(v) ==> exists|i: int|
            0 <= i < t.len() && #[trigger] t[i].0@ == k && t[i].1 == v,
    decreases t.len(),
{
    if t.len() > 0 && t[0].0@ != k {
        lemma_lookup_keys(t.drop_first(), k);
        if table_lookup(t, k) is Some {
            let j = choose|j: int|
                0 <= j < t.drop_first().len() && #[trigger] t.drop_first()[j].0@ == k
                    && t.drop_first()[j].1 == table_lookup(t, k)->0;
            assert(t[j + 1] == t.drop_first()[j]);
        }
    }
}


/// The English keys are distinct: no two entries share a key.
#[verifier::rlimit(80)]
pub proof fn lemma_en_keys_distinct(i: int, j: int)
    requires
        0 <= i < j < en_abbr_spec().len(),
    ensures
        en_abbr_spec()[i].0@ != en_abbr_spec()[j].0@,
{
    let t = en_abbr_spec();
    lemma_en_keys_found(i);
    lemma_en_keys_found(j);
    assert(forall|a: int, b: int| 0 <= a < b < 25 ==> #[trigger] t[a].1 < #[trigger] t[b].1);
}

} // verus!
