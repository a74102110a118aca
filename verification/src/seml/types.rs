//! The scenario a SEML document describes, in the shape the emulator's reader
//! expects, together with the header-derived run parameters. Each type has a
//! view over mathematical sequences that the parser's contracts speak of.
use vstd::prelude::*;

verus! {

/// The parsed scenario: the setting and the waves in order.
pub struct Config {
    pub setting: Setting,
    pub waves: Vec<Wave>,
}

pub struct Setting {
    /// Mapped scene handed to the emulator: `NE`, `FE` or `ME`.
    pub scene: String,
    /// Scene as written: `DE`, `NE`, `PE`, `FE`, `RE` or `ME`.
    pub original_scene: Option<String>,
    pub protect: Option<Vec<ProtectPos>>,
}

#[derive(Clone, Copy, PartialEq, Eq, Structural, Debug)]
pub enum ProtectKind {
    Cob,
    Normal,
}

#[derive(Clone, Copy, PartialEq, Eq, Structural, Debug)]
pub struct ProtectPos {
    pub kind: ProtectKind,
    pub row: i32,
    pub col: i32,
}

pub struct Wave {
    pub ice_times: Vec<i32>,
    pub wave_length: i32,
    pub start_tick: Option<i32>,
    pub actions: Vec<Action>,
}

/// A cob landing position. `col` holds the landing column as the decimal
/// literal written in the document (at most 10, at least 0).
pub struct CobPos {
    pub row: i32,
    pub col: String,
}

#[derive(Clone, Copy, PartialEq, Eq, Structural, Debug)]
pub struct CardPos {
    pub row: i32,
    pub col: i32,
}

#[derive(Clone, Copy, PartialEq, Eq, Structural, Debug)]
pub enum Fodder {
    Normal,
    Puff,
    Pot,
}

/// One scheduled action.
pub enum Action {
    Cob { symbol: String, time: i32, positions: Vec<CobPos>, cob_col: Option<i32> },
    FixedCard {
        symbol: String,
        time: i32,
        shovel_time: Option<i32>,
        plant_type: i32,
        position: CardPos,
    },
    SmartCard { symbol: String, time: i32, plant_type: i32, positions: Vec<CardPos> },
    FixedFodder {
        symbol: String,
        time: i32,
        shovel_time: Option<i32>,
        fodders: Vec<Fodder>,
        positions: Vec<CardPos>,
    },
    SmartFodder {
        symbol: String,
        time: i32,
        shovel_time: Option<i32>,
        fodders: Vec<Fodder>,
        positions: Vec<CardPos>,
        choose: i32,
        waves: Vec<i32>,
    },
}

/// Header-derived run parameters.
pub struct Params {
    pub repeat: Option<i32>,
    pub zombies: Option<Vec<i32>>,
    pub target_x: Option<i32>,
    pub require: Option<Vec<i32>>,
    pub ban: Option<Vec<i32>>,
    pub huge: Option<bool>,
    pub activate: Option<bool>,
    pub dance: Option<bool>,
    pub natural: Option<bool>,
    pub cob_delay: Option<bool>,
    pub show_std: bool,
    pub hit_thres: Option<i32>,
    pub ncobs: Option<i32>,
    pub looping: Option<bool>,
}

// --- views ------------------------------------------------------------------

pub struct ConfigV {
    pub setting: SettingV,
    pub waves: Seq<WaveV>,
}

pub struct SettingV {
    pub scene: Seq<char>,
    pub original_scene: Option<Seq<char>>,
    pub protect: Option<Seq<ProtectPos>>,
}

pub struct WaveV {
    pub ice_times: Seq<i32>,
    pub wave_length: i32,
    pub start_tick: Option<i32>,
    pub actions: Seq<ActionV>,
}

pub struct CobPosV {
    pub row: i32,
    pub col: Seq<char>,
}

pub enum ActionV {
    Cob { symbol: Seq<char>, time: i32, positions: Seq<CobPosV>, cob_col: Option<i32> },
    FixedCard {
        symbol: Seq<char>,
        time: i32,
        shovel_time: Option<i32>,
        plant_type: i32,
        position: CardPos,
    },
    SmartCard { symbol: Seq<char>, time: i32, plant_type: i32, positions: Seq<CardPos> },
    FixedFodder {
        symbol: Seq<char>,
        time: i32,
        shovel_time: Option<i32>,
        fodders: Seq<Fodder>,
        positions: Seq<CardPos>,
    },
    SmartFodder {
        symbol: Seq<char>,
        time: i32,
        shovel_time: Option<i32>,
        fodders: Seq<Fodder>,
        positions: Seq<CardPos>,
        choose: i32,
        waves: Seq<i32>,
    },
}

pub struct ParamsV {
    pub repeat: Option<i32>,
    pub zombies: Option<Seq<i32>>,
    pub target_x: Option<i32>,
    pub require: Option<Seq<i32>>,
    pub ban: Option<Seq<i32>>,
    pub huge: Option<bool>,
    pub activate: Option<bool>,
    pub dance: Option<bool>,
    pub natural: Option<bool>,
    pub cob_delay: Option<bool>,
    pub show_std: bool,
    pub hit_thres: Option<i32>,
    pub ncobs: Option<i32>,
    pub looping: Option<bool>,
}

pub open spec fn opt_string_view(o: Option<String>) -> Option<Seq<char>> {
    match o {
        Some(s) => Some(s@),
        None => None,
    }
}

pub open spec fn opt_vec_view<T>(o: Option<Vec<T>>) -> Option<Seq<T>> {
    match o {
        Some(v) => Some(v@),
        None => None,
    }
}

impl View for Setting {
    type V = SettingV;

    open spec fn view(&self) -> SettingV {
        SettingV {
            scene: self.scene@,
            original_scene: opt_string_view(self.original_scene),
            protect: opt_vec_view(self.protect),
        }
    }
}

impl View for CobPos {
    type V = CobPosV;

    open spec fn view(&self) -> CobPosV {
        CobPosV { row: self.row, col: self.col@ }
    }
}

pub open spec fn cob_positions_view(v: Seq<CobPos>) -> Seq<CobPosV> {
    Seq::new(v.len(), |i: int| v[i]@)
}

impl View for Action {
    type V = ActionV;

    open spec fn view(&self) -> ActionV {
        match self {
            Action::Cob { symbol, time, positions, cob_col } => ActionV::Cob {
                symbol: symbol@,
                time: *time,
                positions: cob_positions_view(positions@),
                cob_col: *cob_col,
            },
            Action::FixedCard { symbol, time, shovel_time, plant_type, position } =>
                ActionV::FixedCard {
                symbol: symbol@,
                time: *time,
                shovel_time: *shovel_time,
                plant_type: *plant_type,
                position: *position,
            },
            Action::SmartCard { symbol, time, plant_type, positions } => ActionV::SmartCard {
                symbol: symbol@,
                time: *time,
                plant_type: *plant_type,
                positions: positions@,
            },
            Action::FixedFodder { symbol, time, shovel_time, fodders, positions } =>
                ActionV::FixedFodder {
                symbol: symbol@,
                time: *time,
                shovel_time: *shovel_time,
                fodders: fodders@,
                positions: positions@,
            },
            Action::SmartFodder {
                symbol,
                time,
                shovel_time,
                fodders,
                positions,
                choose,
                waves,
            } => ActionV::SmartFodder {
                symbol: symbol@,
                time: *time,
                shovel_time: *shovel_time,
                fodders: fodders@,
                positions: positions@,
                choose: *choose,
                waves: waves@,
            },
        }
    }
}

pub open spec fn actions_view(v: Seq<Action>) -> Seq<ActionV> {
    Seq::new(v.len(), |i: int| v[i]@)
}

impl View for Wave {
    type V = WaveV;

    open spec fn view(&self) -> WaveV {
        WaveV {
            ice_times: self.ice_times@,
            wave_length: self.wave_length,
            start_tick: self.start_tick,
            actions: actions_view(self.actions@),
        }
    }
}

pub open spec fn waves_view(v: Seq<Wave>) -> Seq<WaveV> {
    Seq::new(v.len(), |i: int| v[i]@)
}

impl View for Config {
    type V = ConfigV;

    open spec fn view(&self) -> ConfigV {
        ConfigV { setting: self.setting@, waves: waves_view(self.waves@) }
    }
}

impl View for Params {
    type V = ParamsV;

    open spec fn view(&self) -> ParamsV {
        ParamsV {
            repeat: self.repeat,
            zombies: opt_vec_view(self.zombies),
            target_x: self.target_x,
            require: opt_vec_view(self.require),
            ban: opt_vec_view(self.ban),
            huge: self.huge,
            activate: self.activate,
            dance: self.dance,
            natural: self.natural,
            cob_delay: self.cob_delay,
            show_std: self.show_std,
            hit_thres: self.hit_thres,
            ncobs: self.ncobs,
            looping: self.looping,
        }
    }
}

/// The time an action fires.
pub open spec fn action_time(a: ActionV) -> i32 {
    match a {
        ActionV::Cob { time, .. } => time,
        ActionV::FixedCard { time, .. } => time,
        ActionV::SmartCard { time, .. } => time,
        ActionV::FixedFodder { time, .. } => time,
        ActionV::SmartFodder { time, .. } => time,
    }
}

impl Action {
    /// Time the action fires.
    pub fn time(&self) -> (r: i32)
        ensures
            r == action_time(self@),
    {
        match self {
            Action::Cob { time, .. } => *time,
            Action::FixedCard { time, .. } => *time,
            Action::SmartCard { time, .. } => *time,
            Action::FixedFodder { time, .. } => *time,
            Action::SmartFodder { time, .. } => *time,
        }
    }

    pub fn set_time(&mut self, t: i32)
        ensures
            final(self)@ == action_with_time(old(self)@, t),
    {
        match self {
            Action::Cob { time, .. } => *time = t,
            Action::FixedCard { time, .. } => *time = t,
            Action::SmartCard { time, .. } => *time = t,
            Action::FixedFodder { time, .. } => *time = t,
            Action::SmartFodder { time, .. } => *time = t,
        }
    }
}

/// The action with its firing time replaced by `t`.
pub open spec fn action_with_time(a: ActionV, t: i32) -> ActionV {
    match a {
        ActionV::Cob { symbol, time, positions, cob_col } => ActionV::Cob {
            symbol,
            time: t,
            positions,
            cob_col,
        },
        ActionV::FixedCard { symbol, time, shovel_time, plant_type, position } =>
            ActionV::FixedCard { symbol, time: t, shovel_time, plant_type, position },
        ActionV::SmartCard { symbol, time, plant_type, positions } => ActionV::SmartCard {
            symbol,
            time: t,
            plant_type,
            positions,
        },
        ActionV::FixedFodder { symbol, time, shovel_time, fodders, positions } =>
            ActionV::FixedFodder { symbol, time: t, shovel_time, fodders, positions },
        ActionV::SmartFodder { symbol, time, shovel_time, fodders, positions, choose, waves } =>
            ActionV::SmartFodder {
            symbol,
            time: t,
            shovel_time,
            fodders,
            positions,
            choose,
            waves,
        },
    }
}

impl Params {
    pub fn new() -> (r: Params)
        ensures
            r@ == params_default(),
    {
        Params {
            repeat: None,
            zombies: None,
            target_x: None,
            require: None,
            ban: None,
            huge: None,
            activate: None,
            dance: None,
            natural: None,
            cob_delay: None,
            show_std: false,
            hit_thres: None,
            ncobs: None,
            looping: None,
        }
    }
}

pub open spec fn params_default() -> ParamsV {
    ParamsV {
        repeat: None,
        zombies: None,
        target_x: None,
        require: None,
        ban: None,
        huge: None,
        activate: None,
        dance: None,
        natural: None,
        cob_delay: None,
        show_std: false,
        hit_thres: None,
        ncobs: None,
        looping: None,
    }
}

} // verus!
