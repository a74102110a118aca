//! The SEML scenario language: its parser, the scenario model it produces,
//! zombie tables, and the cannon-reuse scheduler.
use vstd::prelude::*;

pub mod error;
pub mod explode;
pub mod histogram;
pub mod laws;
pub mod names;
pub mod parser;
pub mod plant;
pub mod refresh;
pub mod smash;
pub mod pogo;
pub mod pos;
pub mod reuse;
pub mod string;
pub mod types;
pub mod zombie;

verus! {

/// Where to write a CSV export: `path` as given; where it names a directory,
/// the file is named after `default_stem` inside it.
pub struct CsvTarget<'a> {
    pub path: &'a str,
    pub default_stem: &'a str,
}

/// What a SEML document can be run through: the emulator's calculators, and
/// the cannon-reuse scheduler, which needs no emulator.
#[derive(Clone, Copy, PartialEq, Eq, Structural, Debug)]
pub enum SemlType {
    /// Zombie x-coordinate and arrival-time distribution.
    Pos,
    /// Gargantuar smash rate.
    Smash,
    /// Cob explosion damage.
    Explode,
    /// Spawn refresh accident rate.
    Refresh,
    /// Pogo collect range.
    Pogo,
    /// Hit rate and remaining health of five of each zombie type the scene
    /// allows, per wave.
    Survive,
    /// Cannon reuse timing (no emulator run).
    Reuse,
}

pub open spec fn seml_type_name(t: SemlType) -> Seq<char> {
    match t {
        SemlType::Pos => "pos"@,
        SemlType::Smash => "smash"@,
        SemlType::Explode => "explode"@,
        SemlType::Refresh => "refresh"@,
        SemlType::Pogo => "pogo"@,
        SemlType::Survive => "survive"@,
        SemlType::Reuse => "reuse"@,
    }
}

/// The kind a name stands for.
pub open spec fn seml_type_named(s: Seq<char>) -> Option<SemlType> {
    if s == "pos"@ {
        Some(SemlType::Pos)
    } else if s == "smash"@ {
        Some(SemlType::Smash)
    } else if s == "explode"@ {
        Some(SemlType::Explode)
    } else if s == "refresh"@ {
        Some(SemlType::Refresh)
    } else if s == "pogo"@ {
        Some(SemlType::Pogo)
    } else if s == "survive"@ {
        Some(SemlType::Survive)
    } else if s == "reuse"@ {
        Some(SemlType::Reuse)
    } else {
        None
    }
}

/// Each kind's name reads back as that kind, so no two kinds share a name.
pub proof fn lemma_seml_type_names(t: SemlType)
    ensures
        seml_type_named(seml_type_name(t)) == Some(t),
{
    reveal_strlit("pos");
    reveal_strlit("smash");
    reveal_strlit("explode");
    reveal_strlit("refresh");
    reveal_strlit("pogo");
    reveal_strlit("survive");
    reveal_strlit("reuse");
    assert("pos"@.len() == 3 && "pogo"@.len() == 4 && "smash"@.len() == 5 && "reuse"@.len() == 5);
    assert("explode"@.len() == 7 && "refresh"@.len() == 7 && "survive"@.len() == 7);
    assert("smash"@[0] != "reuse"@[0]);
    assert("explode"@[0] != "refresh"@[0] && "explode"@[0] != "survive"@[0] && "refresh"@[0]
        != "survive"@[0]);
}

impl SemlType {
    /// The calculator's name as the emulator knows it.
    pub fn as_str(self) -> (r: &'static str)
        ensures
            r@ == seml_type_name(self),
    {
        match self {
            SemlType::Pos => "pos",
            SemlType::Smash => "smash",
            SemlType::Explode => "explode",
            SemlType::Refresh => "refresh",
            SemlType::Pogo => "pogo",
            SemlType::Survive => "survive",
            SemlType::Reuse => "reuse",
        }
    }

    /// The kind a name stands for, `None` for any other text.
    pub fn from_name(s: &str) -> (r: Option<SemlType>)
        ensures
            r == seml_type_named(s@),
    {
        let c = crate::text::chars_of(s);
        if crate::text::eq_str(c.as_slice(), "pos") {
            Some(SemlType::Pos)
        } else if crate::text::eq_str(c.as_slice(), "smash") {
            Some(SemlType::Smash)
        } else if crate::text::eq_str(c.as_slice(), "explode") {
            Some(SemlType::Explode)
        } else if crate::text::eq_str(c.as_slice(), "refresh") {
            Some(SemlType::Refresh)
        } else if crate::text::eq_str(c.as_slice(), "pogo") {
            Some(SemlType::Pogo)
        } else if crate::text::eq_str(c.as_slice(), "survive") {
            Some(SemlType::Survive)
        } else if crate::text::eq_str(c.as_slice(), "reuse") {
            Some(SemlType::Reuse)
        } else {
            None
        }
    }

    /// Whether the kind runs the emulator (all but the reuse scheduler).
    pub fn runs_emulator(self) -> (r: bool)
        ensures
            r == (self != SemlType::Reuse),
    {
        match self {
            SemlType::Reuse => false,
            _ => true,
        }
    }
}

/// Cob delay is disabled unless the document asks for it (`cobDelay: true`).
pub fn disable_cob_delay(p: &types::Params) -> (r: bool)
    ensures
        r == (p.cob_delay != Some(true)),
{
    match p.cob_delay {
        Some(b) => !b,
        None => true,
    }
}

/// A value of the run-parameter object handed to a calculator.
pub enum ParamValue {
    Int(i32),
    Bool(bool),
    Ints(Vec<i32>),
}

pub enum ParamValueV {
    Int(i32),
    Bool(bool),
    Ints(Seq<i32>),
}

impl View for ParamValue {
    type V = ParamValueV;

    open spec fn view(&self) -> ParamValueV {
        match self {
            ParamValue::Int(i) => ParamValueV::Int(*i),
            ParamValue::Bool(b) => ParamValueV::Bool(*b),
            ParamValue::Ints(v) => ParamValueV::Ints(v@),
        }
    }
}

pub open spec fn or_empty_ints(o: Option<Seq<i32>>) -> Seq<i32> {
    match o {
        Some(s) => s,
        None => Seq::empty(),
    }
}

pub open spec fn or_false(o: Option<bool>) -> bool {
    match o {
        Some(b) => b,
        None => false,
    }
}

/// The run parameters a calculator reads, in the order they are set:
/// `repeat` where given (else the calculator's own default applies), then the
/// keys of that calculator.
pub open spec fn params_entries(kind: SemlType, p: types::ParamsV) -> Seq<(Seq<char>, ParamValueV)> {
    let repeat = match p.repeat {
        Some(r) => seq![("repeat"@, ParamValueV::Int(r))],
        None => Seq::empty(),
    };
    let no_delay = ("disableCobDelay"@, ParamValueV::Bool(p.cob_delay != Some(true)));
    repeat + match kind {
        SemlType::Pos => seq![("zombies"@, ParamValueV::Ints(or_empty_ints(p.zombies)))] + match p.target_x {
            Some(x) => seq![("targetX"@, ParamValueV::Int(x))],
            None => Seq::empty(),
        } + seq![no_delay],
        SemlType::Smash => seq![no_delay],
        SemlType::Explode => seq![no_delay],
        SemlType::Refresh => seq![
            ("require"@, ParamValueV::Ints(or_empty_ints(p.require))),
            ("ban"@, ParamValueV::Ints(or_empty_ints(p.ban))),
            ("huge"@, ParamValueV::Bool(or_false(p.huge))),
            ("activate"@, ParamValueV::Bool(or_false(p.activate))),
            ("dance"@, ParamValueV::Bool(or_false(p.dance))),
            ("natural"@, ParamValueV::Bool(or_false(p.natural))),
            no_delay,
        ],
        SemlType::Pogo => Seq::empty(),
        SemlType::Survive => (match p.hit_thres {
            Some(h) => seq![("hitThres"@, ParamValueV::Int(h))],
            None => Seq::empty(),
        }) + seq![no_delay],
        SemlType::Reuse => Seq::empty(),
    }
}

pub open spec fn entries_view(v: Seq<(String, ParamValue)>) -> Seq<(Seq<char>, ParamValueV)> {
    Seq::new(v.len(), |i: int| (v[i].0@, v[i].1@))
}

fn push_entry(v: &mut Vec<(String, ParamValue)>, key: &str, value: ParamValue)
    ensures
        entries_view(final(v)@) == entries_view(old(v)@).push((key@, value@)),
{
    let ghost o = entries_view(v@);
    let ghost vv = value@;
    let k = crate::text::string_of(crate::text::chars_of(key).as_slice());
    v.push((k, value));
    assert(entries_view(v@) =~= o.push((key@, vv)));
}

fn clone_ints(o: &Option<Vec<i32>>) -> (r: Vec<i32>)
    ensures
        r@ == or_empty_ints(types::opt_vec_view(*o)),
{
    match o {
        Some(v) => v.clone(),
        None => Vec::new(),
    }
}

/// The run parameters for calculator `kind`, as (key, value) entries.
pub fn build_params(kind: SemlType, p: &types::Params) -> (r: Vec<(String, ParamValue)>)
    ensures
        entries_view(r@) == params_entries(kind, p@),
{
    let mut v: Vec<(String, ParamValue)> = Vec::new();
    if let Some(r) = p.repeat {
        push_entry(&mut v, "repeat", ParamValue::Int(r));
    }
    let nd = disable_cob_delay(p);
    match kind {
        SemlType::Pos => {
            push_entry(&mut v, "zombies", ParamValue::Ints(clone_ints(&p.zombies)));
            if let Some(x) = p.target_x {
                push_entry(&mut v, "targetX", ParamValue::Int(x));
            }
            push_entry(&mut v, "disableCobDelay", ParamValue::Bool(nd));
        },
        SemlType::Smash | SemlType::Explode => {
            push_entry(&mut v, "disableCobDelay", ParamValue::Bool(nd));
        },
        SemlType::Refresh => {
            push_entry(&mut v, "require", ParamValue::Ints(clone_ints(&p.require)));
            push_entry(&mut v, "ban", ParamValue::Ints(clone_ints(&p.ban)));
            push_entry(&mut v, "huge", ParamValue::Bool(p.huge == Some(true)));
            push_entry(&mut v, "activate", ParamValue::Bool(p.activate == Some(true)));
            push_entry(&mut v, "dance", ParamValue::Bool(p.dance == Some(true)));
            push_entry(&mut v, "natural", ParamValue::Bool(p.natural == Some(true)));
            push_entry(&mut v, "disableCobDelay", ParamValue::Bool(nd));
        },
        SemlType::Pogo | SemlType::Reuse => {},
        SemlType::Survive => {
            if let Some(h) = p.hit_thres {
                push_entry(&mut v, "hitThres", ParamValue::Int(h));
            }
            push_entry(&mut v, "disableCobDelay", ParamValue::Bool(nd));
        },
    }
    assert(entries_view(v@) =~= params_entries(kind, p@));
    v
}

} // verus!
