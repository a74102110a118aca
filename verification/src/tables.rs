//! The per-variant metadata the coord and time calculators iterate over:
//! several terrain and state variants reuse a base zombie's position column
//! with their own defense geometry.
use vstd::prelude::*;
use crate::text::{chars_of, eq_chars, split, split_chars, string_of, trim, trim_chars, views};
use crate::zmc::ZombieType;

verus! {

/// How a zombie variant behaves on the flag wave.
#[derive(Clone, Copy)]
pub enum FlagMode {
    /// Adds this offset to the normal-wave position.
    Offset(i32),
    /// Uses a dedicated flag-wave position column.
    Column(&'static str),
    /// Exists on the flag wave only.
    FlagOnly,
}

pub enum FlagModeV {
    Offset(i32),
    Column(Seq<char>),
    FlagOnly,
}

impl View for FlagMode {
    type V = FlagModeV;

    open spec fn view(&self) -> FlagModeV {
        match self {
            FlagMode::Offset(o) => FlagModeV::Offset(*o),
            FlagMode::Column(c) => FlagModeV::Column(c@),
            FlagMode::FlagOnly => FlagModeV::FlagOnly,
        }
    }
}

/// One row of the coord/time per-zombie table.
pub struct Variant {
    /// Stable English key (also what `--zombies` names).
    pub key: &'static str,
    /// Column in the position tables.
    pub pos_col: String,
    pub flag: FlagMode,
    pub min_cs_normal: Option<i32>,
    pub min_cs_flag: Option<i32>,
    /// Leftmost / rightmost x still fully damageable.
    pub dmg_range: (i32, i32),
    /// Defense box x offset / right.
    pub def_x: (i32, i32),
    /// Defense box y offset / bottom.
    pub def_y: (i32, i32),
    /// Vertical render offset used by the landing geometry.
    pub h: i32,
}

pub struct VariantV {
    pub key: Seq<char>,
    pub pos_col: Seq<char>,
    pub flag: FlagModeV,
    pub min_cs_normal: Option<i32>,
    pub min_cs_flag: Option<i32>,
    pub dmg_range: (i32, i32),
    pub def_x: (i32, i32),
    pub def_y: (i32, i32),
    pub h: i32,
}

impl View for Variant {
    type V = VariantV;

    open spec fn view(&self) -> VariantV {
        VariantV {
            key: self.key@,
            pos_col: self.pos_col@,
            flag: self.flag@,
            min_cs_normal: self.min_cs_normal,
            min_cs_flag: self.min_cs_flag,
            dmg_range: self.dmg_range,
            def_x: self.def_x,
            def_y: self.def_y,
            h: self.h,
        }
    }
}

/// What a base zombie contributes to the variants built on it.
pub struct ZombieBase {
    pub pos_col: String,
    pub dmg_range: (i32, i32),
    pub def_x: (i32, i32),
    pub def_y: (i32, i32),
    pub min_cs_normal: Option<i32>,
    pub min_cs_flag: Option<i32>,
    pub coord_h: i32,
}

pub struct ZombieBaseV {
    pub pos_col: Seq<char>,
    pub dmg_range: (i32, i32),
    pub def_x: (i32, i32),
    pub def_y: (i32, i32),
    pub min_cs_normal: Option<i32>,
    pub min_cs_flag: Option<i32>,
    pub coord_h: i32,
}

impl View for ZombieBase {
    type V = ZombieBaseV;

    open spec fn view(&self) -> ZombieBaseV {
        ZombieBaseV {
            pos_col: self.pos_col@,
            dmg_range: self.dmg_range,
            def_x: self.def_x,
            def_y: self.def_y,
            min_cs_normal: self.min_cs_normal,
            min_cs_flag: self.min_cs_flag,
            coord_h: self.coord_h,
        }
    }
}

/// What a variant overrides of its base zombie.
pub struct Over {
    pub dmg_range: Option<(i32, i32)>,
    pub def_x: Option<(i32, i32)>,
    pub def_y: Option<(i32, i32)>,
    pub h: Option<i32>,
    pub min_cs: Option<(Option<i32>, Option<i32>)>,
    pub flag: Option<FlagMode>,
}

pub struct OverV {
    pub dmg_range: Option<(i32, i32)>,
    pub def_x: Option<(i32, i32)>,
    pub def_y: Option<(i32, i32)>,
    pub h: Option<i32>,
    pub min_cs: Option<(Option<i32>, Option<i32>)>,
    pub flag: Option<FlagModeV>,
}

impl View for Over {
    type V = OverV;

    open spec fn view(&self) -> OverV {
        OverV {
            dmg_range: self.dmg_range,
            def_x: self.def_x,
            def_y: self.def_y,
            h: self.h,
            min_cs: self.min_cs,
            flag: match self.flag {
                Some(f) => Some(f@),
                None => None,
            },
        }
    }
}

/// A row of the variant table: key, base zombie, flag behaviour of the
/// primary row, overrides.
pub struct Spec(pub &'static str, pub ZombieType, pub FlagMode, pub Over);

pub struct SpecV {
    pub key: Seq<char>,
    pub base: ZombieType,
    pub flag: FlagModeV,
    pub over: OverV,
}

impl View for Spec {
    type V = SpecV;

    open spec fn view(&self) -> SpecV {
        SpecV { key: self.0@, base: self.1, flag: self.2@, over: self.3@ }
    }
}

/// Row `i` of the variant table, in the order of the sheet.
pub open spec fn spec_row(i: int) -> SpecV {
    if i == 0 {
        SpecV { key: "regular"@, base: ZombieType::Regular, flag: FlagModeV::Offset(40), over: OverV { dmg_range: None, def_x: None, def_y: None, h: None, min_cs: None, flag: None } }
    } else if i == 1 {
        SpecV { key: "regular_dc_fast"@, base: ZombieType::DCFast, flag: FlagModeV::Offset(40), over: OverV { dmg_range: None, def_x: None, def_y: None, h: None, min_cs: None, flag: None } }
    } else if i == 2 {
        SpecV { key: "regular_dc_slow"@, base: ZombieType::DCSlow, flag: FlagModeV::Offset(40), over: OverV { dmg_range: None, def_x: None, def_y: None, h: None, min_cs: None, flag: None } }
    } else if i == 3 {
        SpecV { key: "pole"@, base: ZombieType::PoleVaulting, flag: FlagModeV::Offset(40), over: OverV { dmg_range: None, def_x: None, def_y: None, h: None, min_cs: None, flag: None } }
    } else if i == 4 {
        SpecV { key: "newspaper"@, base: ZombieType::Newspaper, flag: FlagModeV::Offset(40), over: OverV { dmg_range: None, def_x: None, def_y: None, h: None, min_cs: None, flag: None } }
    } else if i == 5 {
        SpecV { key: "door"@, base: ZombieType::ScreenDoor, flag: FlagModeV::Offset(40), over: OverV { dmg_range: None, def_x: None, def_y: None, h: None, min_cs: None, flag: None } }
    } else if i == 6 {
        SpecV { key: "football"@, base: ZombieType::Football, flag: FlagModeV::Offset(40), over: OverV { dmg_range: None, def_x: None, def_y: None, h: None, min_cs: None, flag: None } }
    } else if i == 7 {
        SpecV { key: "dancing"@, base: ZombieType::Dancing, flag: FlagModeV::Offset(40), over: OverV { dmg_range: None, def_x: None, def_y: None, h: None, min_cs: None, flag: None } }
    } else if i == 8 {
        SpecV { key: "snorkel"@, base: ZombieType::Snorkel, flag: FlagModeV::Column("snorkel_flag"@), over: OverV { dmg_range: None, def_x: None, def_y: None, h: None, min_cs: None, flag: None } }
    } else if i == 9 {
        SpecV { key: "zomboni"@, base: ZombieType::Zomboni, flag: FlagModeV::Offset(40), over: OverV { dmg_range: None, def_x: None, def_y: None, h: None, min_cs: None, flag: None } }
    } else if i == 10 {
        SpecV { key: "dolphin"@, base: ZombieType::DolphinRider, flag: FlagModeV::Column("dolphin_flag"@), over: OverV { dmg_range: None, def_x: None, def_y: None, h: None, min_cs: None, flag: None } }
    } else if i == 11 {
        SpecV { key: "jack"@, base: ZombieType::JackInTheBox, flag: FlagModeV::Offset(40), over: OverV { dmg_range: None, def_x: None, def_y: None, h: None, min_cs: None, flag: None } }
    } else if i == 12 {
        SpecV { key: "balloon"@, base: ZombieType::Balloon, flag: FlagModeV::Offset(40), over: OverV { dmg_range: None, def_x: None, def_y: None, h: None, min_cs: None, flag: None } }
    } else if i == 13 {
        SpecV { key: "digger"@, base: ZombieType::Digger, flag: FlagModeV::Column("digger_flag"@), over: OverV { dmg_range: None, def_x: None, def_y: None, h: None, min_cs: None, flag: None } }
    } else if i == 14 {
        SpecV { key: "pogo"@, base: ZombieType::Pogo, flag: FlagModeV::Offset(40), over: OverV { dmg_range: None, def_x: None, def_y: None, h: None, min_cs: None, flag: None } }
    } else if i == 15 {
        SpecV { key: "ladder"@, base: ZombieType::Ladder, flag: FlagModeV::Offset(40), over: OverV { dmg_range: None, def_x: None, def_y: None, h: None, min_cs: None, flag: None } }
    } else if i == 16 {
        SpecV { key: "catapult"@, base: ZombieType::Catapult, flag: FlagModeV::Offset(40), over: OverV { dmg_range: None, def_x: None, def_y: None, h: None, min_cs: None, flag: None } }
    } else if i == 17 {
        SpecV { key: "gargantuar"@, base: ZombieType::Gargantuar, flag: FlagModeV::Offset(40), over: OverV { dmg_range: None, def_x: None, def_y: None, h: None, min_cs: None, flag: None } }
    } else if i == 18 {
        SpecV { key: "flag"@, base: ZombieType::Flag, flag: FlagModeV::FlagOnly, over: OverV { dmg_range: None, def_x: None, def_y: None, h: None, min_cs: None, flag: None } }
    } else if i == 19 {
        SpecV { key: "duck"@, base: ZombieType::Regular, flag: FlagModeV::Offset(40), over: OverV { dmg_range: None, def_x: None, def_y: None, h: Some(-40i32), min_cs: None, flag: None } }
    } else if i == 20 {
        SpecV { key: "duck_dc_fast"@, base: ZombieType::DCFast, flag: FlagModeV::Offset(40), over: OverV { dmg_range: None, def_x: None, def_y: None, h: Some(-40i32), min_cs: None, flag: None } }
    } else if i == 21 {
        SpecV { key: "duck_dc_slow"@, base: ZombieType::DCSlow, flag: FlagModeV::Offset(40), over: OverV { dmg_range: None, def_x: None, def_y: None, h: Some(-40i32), min_cs: None, flag: None } }
    } else if i == 22 {
        SpecV { key: "snorkel_ashore"@, base: ZombieType::Snorkel, flag: FlagModeV::Column("snorkel_flag"@), over: OverV { dmg_range: None, def_x: None, def_y: None, h: Some(0), min_cs: None, flag: None } }
    } else if i == 23 {
        SpecV { key: "digger_reverse"@, base: ZombieType::Digger, flag: FlagModeV::Column("digger_flag"@), over: OverV { dmg_range: Some((9, 758)), def_x: Some((42, 70)), def_y: None, h: None, min_cs: Some((Some(1358), Some(1419))), flag: None } }
    } else if i == 24 {
        SpecV { key: "duck_flag"@, base: ZombieType::Flag, flag: FlagModeV::FlagOnly, over: OverV { dmg_range: None, def_x: None, def_y: None, h: Some(-40i32), min_cs: None, flag: None } }
    } else if i == 25 {
        SpecV { key: "dolphin_swim"@, base: ZombieType::DolphinRider, flag: FlagModeV::Column("dolphin_flag"@), over: OverV { dmg_range: Some((-99i32, 780i32)), def_x: Some((20, 62)), def_y: None, h: None, min_cs: None, flag: None } }
    } else if i == 26 {
        SpecV { key: "balloon_ground"@, base: ZombieType::Balloon, flag: FlagModeV::Offset(40), over: OverV { dmg_range: None, def_x: None, def_y: None, h: Some(0), min_cs: None, flag: None } }
    } else if i == 27 {
        SpecV { key: "pogo_walk"@, base: ZombieType::Pogo, flag: FlagModeV::Offset(40), over: OverV { dmg_range: None, def_x: None, def_y: Some((17, 132)), h: Some(16), min_cs: None, flag: None } }
    } else {
        SpecV { key: Seq::empty(), base: ZombieType::Regular, flag: FlagModeV::FlagOnly, over: OverV { dmg_range: None, def_x: None, def_y: None, h: None, min_cs: None, flag: None } }
    }
}

pub open spec fn specs_view(v: Seq<Spec>) -> Seq<SpecV> {
    Seq::new(v.len(), |i: int| v[i]@)
}

/// The variant table: 28 rows.
pub fn specs() -> (r: Vec<Spec>)
    ensures
        specs_view(r@) == Seq::new(28, |i: int| spec_row(i)),
{
    let r = vec![
        Spec("regular", ZombieType::Regular, FlagMode::Offset(40), Over { dmg_range: None, def_x: None, def_y: None, h: None, min_cs: None, flag: None }),
        Spec("regular_dc_fast", ZombieType::DCFast, FlagMode::Offset(40), Over { dmg_range: None, def_x: None, def_y: None, h: None, min_cs: None, flag: None }),
        Spec("regular_dc_slow", ZombieType::DCSlow, FlagMode::Offset(40), Over { dmg_range: None, def_x: None, def_y: None, h: None, min_cs: None, flag: None }),
        Spec("pole", ZombieType::PoleVaulting, FlagMode::Offset(40), Over { dmg_range: None, def_x: None, def_y: None, h: None, min_cs: None, flag: None }),
        Spec("newspaper", ZombieType::Newspaper, FlagMode::Offset(40), Over { dmg_range: None, def_x: None, def_y: None, h: None, min_cs: None, flag: None }),
        Spec("door", ZombieType::ScreenDoor, FlagMode::Offset(40), Over { dmg_range: None, def_x: None, def_y: None, h: None, min_cs: None, flag: None }),
        Spec("football", ZombieType::Football, FlagMode::Offset(40), Over { dmg_range: None, def_x: None, def_y: None, h: None, min_cs: None, flag: None }),
        Spec("dancing", ZombieType::Dancing, FlagMode::Offset(40), Over { dmg_range: None, def_x: None, def_y: None, h: None, min_cs: None, flag: None }),
        Spec("snorkel", ZombieType::Snorkel, FlagMode::Column("snorkel_flag"), Over { dmg_range: None, def_x: None, def_y: None, h: None, min_cs: None, flag: None }),
        Spec("zomboni", ZombieType::Zomboni, FlagMode::Offset(40), Over { dmg_range: None, def_x: None, def_y: None, h: None, min_cs: None, flag: None }),
        Spec("dolphin", ZombieType::DolphinRider, FlagMode::Column("dolphin_flag"), Over { dmg_range: None, def_x: None, def_y: None, h: None, min_cs: None, flag: None }),
        Spec("jack", ZombieType::JackInTheBox, FlagMode::Offset(40), Over { dmg_range: None, def_x: None, def_y: None, h: None, min_cs: None, flag: None }),
        Spec("balloon", ZombieType::Balloon, FlagMode::Offset(40), Over { dmg_range: None, def_x: None, def_y: None, h: None, min_cs: None, flag: None }),
        Spec("digger", ZombieType::Digger, FlagMode::Column("digger_flag"), Over { dmg_range: None, def_x: None, def_y: None, h: None, min_cs: None, flag: None }),
        Spec("pogo", ZombieType::Pogo, FlagMode::Offset(40), Over { dmg_range: None, def_x: None, def_y: None, h: None, min_cs: None, flag: None }),
        Spec("ladder", ZombieType::Ladder, FlagMode::Offset(40), Over { dmg_range: None, def_x: None, def_y: None, h: None, min_cs: None, flag: None }),
        Spec("catapult", ZombieType::Catapult, FlagMode::Offset(40), Over { dmg_range: None, def_x: None, def_y: None, h: None, min_cs: None, flag: None }),
        Spec("gargantuar", ZombieType::Gargantuar, FlagMode::Offset(40), Over { dmg_range: None, def_x: None, def_y: None, h: None, min_cs: None, flag: None }),
        Spec("flag", ZombieType::Flag, FlagMode::FlagOnly, Over { dmg_range: None, def_x: None, def_y: None, h: None, min_cs: None, flag: None }),
        Spec("duck", ZombieType::Regular, FlagMode::Offset(40), Over { dmg_range: None, def_x: None, def_y: None, h: Some(-40i32), min_cs: None, flag: None }),
        Spec("duck_dc_fast", ZombieType::DCFast, FlagMode::Offset(40), Over { dmg_range: None, def_x: None, def_y: None, h: Some(-40i32), min_cs: None, flag: None }),
        Spec("duck_dc_slow", ZombieType::DCSlow, FlagMode::Offset(40), Over { dmg_range: None, def_x: None, def_y: None, h: Some(-40i32), min_cs: None, flag: None }),
        Spec("snorkel_ashore", ZombieType::Snorkel, FlagMode::Column("snorkel_flag"), Over { dmg_range: None, def_x: None, def_y: None, h: Some(0), min_cs: None, flag: None }),
        Spec("digger_reverse", ZombieType::Digger, FlagMode::Column("digger_flag"), Over { dmg_range: Some((9, 758)), def_x: Some((42, 70)), def_y: None, h: None, min_cs: Some((Some(1358), Some(1419))), flag: None }),
        Spec("duck_flag", ZombieType::Flag, FlagMode::FlagOnly, Over { dmg_range: None, def_x: None, def_y: None, h: Some(-40i32), min_cs: None, flag: None }),
        Spec("dolphin_swim", ZombieType::DolphinRider, FlagMode::Column("dolphin_flag"), Over { dmg_range: Some((-99i32, 780i32)), def_x: Some((20, 62)), def_y: None, h: None, min_cs: None, flag: None }),
        Spec("balloon_ground", ZombieType::Balloon, FlagMode::Offset(40), Over { dmg_range: None, def_x: None, def_y: None, h: Some(0), min_cs: None, flag: None }),
        Spec("pogo_walk", ZombieType::Pogo, FlagMode::Offset(40), Over { dmg_range: None, def_x: None, def_y: Some((17, 132)), h: Some(16), min_cs: None, flag: None }),
    ];
    proof {
        reveal_strlit("regular");
    }
    assert(specs_view(r@) =~= Seq::new(28, |i: int| spec_row(i)));
    r
}

/// The variant a table row gives over its base zombie: the position column
/// always comes from the base, the rest from the overrides where given.
pub open spec fn variant_value(s: SpecV, z: ZombieBaseV) -> VariantV {
    let o = s.over;
    VariantV {
        key: s.key,
        pos_col: z.pos_col,
        flag: match o.flag {
            Some(f) => f,
            None => s.flag,
        },
        min_cs_normal: match o.min_cs {
            Some(m) => m.0,
            None => z.min_cs_normal,
        },
        min_cs_flag: match o.min_cs {
            Some(m) => m.1,
            None => z.min_cs_flag,
        },
        dmg_range: match o.dmg_range {
            Some(d) => d,
            None => z.dmg_range,
        },
        def_x: match o.def_x {
            Some(d) => d,
            None => z.def_x,
        },
        def_y: match o.def_y {
            Some(d) => d,
            None => z.def_y,
        },
        h: match o.h {
            Some(h) => h,
            None => z.coord_h,
        },
    }
}

/// Builds the variant of table row `s` over base zombie `z`.
pub fn build_variant(s: &Spec, z: &ZombieBase) -> (r: Variant)
    ensures
        r@ == variant_value(s@, z@),
{
    let o = &s.3;
    Variant {
        key: s.0,
        pos_col: string_of(chars_of(z.pos_col.as_str()).as_slice()),
        flag: match o.flag {
            Some(f) => f,
            None => s.2,
        },
        min_cs_normal: match o.min_cs {
            Some(m) => m.0,
            None => z.min_cs_normal,
        },
        min_cs_flag: match o.min_cs {
            Some(m) => m.1,
            None => z.min_cs_flag,
        },
        dmg_range: match o.dmg_range {
            Some(d) => d,
            None => z.dmg_range,
        },
        def_x: match o.def_x {
            Some(d) => d,
            None => z.def_x,
        },
        def_y: match o.def_y {
            Some(d) => d,
            None => z.def_y,
        },
        h: match o.h {
            Some(h) => h,
            None => z.coord_h,
        },
    }
}

/// The keys a `--zombies` filter names: comma-separated, trimmed, empty ones dropped.
pub open spec fn wanted_keys(f: Seq<char>) -> Seq<Seq<char>> {
    split(f, ',').map_values(|s: Seq<char>| trim(s)).filter(nonempty())
}

pub open spec fn nonempty() -> spec_fn(Seq<char>) -> bool {
    |s: Seq<char>| s.len() > 0
}

pub open spec fn keeps(filter: Option<Seq<char>>) -> spec_fn(VariantV) -> bool {
    |v: VariantV| selected(filter, v.key)
}

/// Whether a filter keeps the variant with key `key`.
pub open spec fn selected(filter: Option<Seq<char>>, key: Seq<char>) -> bool {
    match filter {
        None => true,
        Some(f) => wanted_keys(f).contains(key),
    }
}

/// The variants a filter keeps, in table order.
pub open spec fn selection(vs: Seq<VariantV>, filter: Option<Seq<char>>) -> Seq<VariantV> {
    vs.filter(keeps(filter))
}

pub open spec fn variants_view(v: Seq<Variant>) -> Seq<VariantV> {
    Seq::new(v.len(), |i: int| v[i]@)
}

pub open spec fn variant_refs_view(v: Seq<&Variant>) -> Seq<VariantV> {
    Seq::new(v.len(), |i: int| v[i]@)
}

fn wanted_keys_exec(f: &[char]) -> (r: Vec<Vec<char>>)
    ensures
        views(r@) == wanted_keys(f@),
{
    let parts = split_chars(f, ',');
    let ghost ps = split(f@, ',');
    let ghost tr = ps.map_values(|s: Seq<char>| trim(s));
    let ghost pred = nonempty();
    let mut out: Vec<Vec<char>> = Vec::new();
    let mut i: usize = 0;
    assert(tr.take(0).filter(pred) =~= Seq::<Seq<char>>::empty()) by {
        reveal(Seq::filter);
    }
    while i < parts.len()
        invariant
            i <= parts@.len(),
            views(parts@) == ps,
            tr == ps.map_values(|s: Seq<char>| trim(s)),
            pred == nonempty(),
            views(out@) == tr.take(i as int).filter(pred),
        decreases parts@.len() - i,
    {
        let t = trim_chars(parts[i].as_slice());
        assert(parts@[i as int]@ == ps[i as int]);
        assert(tr.take(i + 1) =~= tr.take(i as int).push(t@));
        proof {
            tr.take(i as int).lemma_filter_push(t@, pred);
        }
        if t.len() > 0 {
            let ghost o = views(out@);
            out.push(t);
            assert(views(out@) =~= o.push(tr[i as int]));
        }
        i = i + 1;
    }
    assert(tr.take(i as int) =~= tr);
    out
}

fn contains_key(keys: &Vec<Vec<char>>, key: &[char]) -> (r: bool)
    ensures
        r == views(keys@).contains(key@),
{
    let mut i: usize = 0;
    while i < keys.len()
        invariant
            i <= keys@.len(),
            forall|j: int| 0 <= j < i ==> views(keys@)[j] != key@,
        decreases keys@.len() - i,
    {
        if eq_chars(keys[i].as_slice(), key) {
            assert(views(keys@)[i as int] == key@);
            return true;
        }
        i = i + 1;
    }
    false
}

/// The variants a `--zombies` filter (comma-separated keys) keeps; `None` keeps all.
pub fn select<'a>(variants: &'a Vec<Variant>, filter: Option<&str>) -> (r: Vec<&'a Variant>)
    ensures
        variant_refs_view(r@) == selection(
            variants_view(variants@),
            match filter {
                Some(f) => Some(f@),
                None => None,
            },
        ),
{
    let ghost fv: Option<Seq<char>> = match filter {
        Some(f) => Some(f@),
        None => None,
    };
    let keys: Option<Vec<Vec<char>>> = match filter {
        Some(f) => Some(wanted_keys_exec(chars_of(f).as_slice())),
        None => None,
    };
    let ghost vv = variants_view(variants@);
    let ghost pred = keeps(fv);
    let mut out: Vec<&'a Variant> = Vec::new();
    let mut i: usize = 0;
    assert(vv.take(0).filter(pred) =~= Seq::<VariantV>::empty()) by {
        reveal(Seq::filter);
    }
    while i < variants.len()
        invariant
            i <= variants@.len(),
            vv == variants_view(variants@),
            match keys {
                Some(k) => fv matches Some(f) && views(k@) == wanted_keys(f),
                None => fv is None,
            },
            pred == keeps(fv),
            variant_refs_view(out@) == vv.take(i as int).filter(pred),
        decreases variants@.len() - i,
    {
        let v = &variants[i];
        assert(vv[i as int] == v@);
        let keep = match &keys {
            Some(k) => contains_key(k, chars_of(v.key).as_slice()),
            None => true,
        };
        assert(vv.take(i + 1) =~= vv.take(i as int).push(v@));
        proof {
            vv.take(i as int).lemma_filter_push(v@, pred);
        }
        if keep {
            let ghost o = variant_refs_view(out@);
            out.push(v);
            assert(variant_refs_view(out@) =~= o.push(v@));
        }
        i = i + 1;
    }
    assert(vv.take(i as int) =~= vv);
    out
}

} // verus!
