//! Errors of the SEML parser: the line they arise on, what is wrong, and the
//! offending text.
use vstd::prelude::*;
use crate::text::{append, chars_of, int_text, push_int_text, push_str, string_of};

verus! {

/// What is wrong with a line.
#[derive(Clone, Copy, PartialEq, Eq, Structural, Debug)]
pub enum ErrKind {
    UnknownSymbol,
    WaveNumPositiveInt,
    StartWaveGtEnd,
    DupParam,
    UnknownScene,
    ProtectValueEmpty,
    NeedProtectRowCol,
    ProtectRowRange { max: i32 },
    ColRange { normal: bool, min: i32 },
    ProtectOverlap,
    ValuePositiveInt,
    ValueBool,
    UnknownZombieCn,
    UnknownZombieEn,
    CannotSpecifyZombie,
    DupZombie,
    SceneCannotZombie,
    NeedWaveLength,
    DupWaveNum,
    NeedSetWaveN { prev: usize },
    AvzTimeIcePositive,
    IceNonneg,
    WaveLenGeLastIce,
    WaveLenPositive,
    StartLeWavelen,
    TimeNonneg,
    NoDelayBase,
    ShovelBeforeCard,
    NeedCobArgs,
    RemoveExtraArgs,
    CobTailRoofOnly,
    CobTailRange,
    RoofNeedCol,
    LandingColRange,
    NeedNLandingRows { n: i32 },
    LandingRowRange { max: i32 },
    NeedCardArgs,
    Need2CardRows,
    CardRowRange { max: i32 },
    DupCardRow,
    CardColRange,
    ParamFormat,
    ParamEmpty,
    ValueEmpty,
    ChooseRange { max: usize },
    DupWaves,
    WavesRange { max: usize },
    UnknownParam,
    NeedChoose,
    NeedVarExpr,
    VarNameEmpty,
    VarNameNotNumeric,
    ExprEmpty,
    ExprChars,
    ExprInvalid,
    SetWaveFirst,
}

/// A parse error on line `line` (1-based). `src` is the offending text;
/// `detail` carries a header name, a scene, or a suggested spelling.
#[derive(Debug)]
pub struct SemlError {
    pub line: usize,
    pub kind: ErrKind,
    pub src: String,
    pub detail: String,
}

pub struct SemlErrorV {
    pub line: usize,
    pub kind: ErrKind,
    pub src: Seq<char>,
    pub detail: Seq<char>,
}

impl View for SemlError {
    type V = SemlErrorV;

    open spec fn view(&self) -> SemlErrorV {
        SemlErrorV { line: self.line, kind: self.kind, src: self.src@, detail: self.detail@ }
    }
}

pub open spec fn mk_err(line: usize, kind: ErrKind, src: Seq<char>) -> SemlErrorV {
    SemlErrorV { line, kind, src, detail: Seq::empty() }
}

pub open spec fn mk_err_d(
    line: usize,
    kind: ErrKind,
    src: Seq<char>,
    detail: Seq<char>,
) -> SemlErrorV {
    SemlErrorV { line, kind, src, detail }
}

pub fn err(line: usize, kind: ErrKind, src: &[char]) -> (r: SemlError)
    ensures
        r@ == mk_err(line, kind, src@),
{
    SemlError {
        line,
        kind,
        src: crate::text::string_of(src),
        detail: String::new(),
    }
}

pub fn err_d(line: usize, kind: ErrKind, src: &[char], detail: &[char]) -> (r: SemlError)
    ensures
        r@ == mk_err_d(line, kind, src@, detail@),
{
    SemlError {
        line,
        kind,
        src: crate::text::string_of(src),
        detail: crate::text::string_of(detail),
    }
}

/// Whether an exec result agrees with a spec result.
pub open spec fn result_matches<T, V>(
    r: Result<T, SemlError>,
    s: Result<V, SemlErrorV>,
    view: spec_fn(T) -> V,
) -> bool {
    match (r, s) {
        (Ok(a), Ok(b)) => view(a) == b,
        (Err(e), Err(f)) => e@ == f,
        _ => false,
    }
}

/// What is wrong, in words; `detail` is a header name, a scene or a suggested
/// spelling.
pub open spec fn kind_text(kind: ErrKind, detail: Seq<char>) -> Seq<char> {
    match kind {
        ErrKind::UnknownSymbol => "未知符号"@,
        ErrKind::WaveNumPositiveInt => "波数应为 1~99 的正整数"@,
        ErrKind::StartWaveGtEnd => "起始波数不能大于终止波数"@,
        ErrKind::DupParam => "参数重复"@,
        ErrKind::UnknownScene => "未知场景（支持 DE NE PE FE RE ME）"@,
        ErrKind::ProtectValueEmpty => "保护位置不能为空"@,
        ErrKind::NeedProtectRowCol => "保护位置需给出行和列"@,
        ErrKind::ProtectRowRange { max } => "保护行应为 1~"@ + int_text(max as int),
        ErrKind::ColRange { normal, min } => (if normal {
            "普通植物"@
        } else {
            "炮"@
        }) + "列应为 "@ + int_text(min as int) + "~9"@,
        ErrKind::ProtectOverlap => "保护位置重叠"@,
        ErrKind::ValuePositiveInt => detail + "的值应为正整数"@,
        ErrKind::ValueBool => detail + "的值应为 true 或 false"@,
        ErrKind::UnknownZombieCn => "未知僵尸类型"@,
        ErrKind::UnknownZombieEn => "未知僵尸类型"@ + if detail.len() > 0 {
            "，是否想输入 "@ + detail + "？"@
        } else {
            Seq::empty()
        },
        ErrKind::CannotSpecifyZombie => "不能指定该僵尸"@,
        ErrKind::DupZombie => "僵尸类型重复"@,
        ErrKind::SceneCannotZombie => detail + " 场景不能出现该僵尸"@,
        ErrKind::NeedWaveLength => "请提供波长"@,
        ErrKind::DupWaveNum => "波数重复"@,
        ErrKind::NeedSetWaveN { prev } => "请先设定第 "@ + int_text(prev + 1) + " 波"@,
        ErrKind::AvzTimeIcePositive => "avzTime 下用冰时机应为正整数"@,
        ErrKind::IceNonneg => "用冰时机应为非负整数"@,
        ErrKind::WaveLenGeLastIce => "波长不能小于最后一次用冰时机"@,
        ErrKind::WaveLenPositive => "波长应为正整数"@,
        ErrKind::StartLeWavelen => "起始时刻应为不超过波长的非负整数"@,
        ErrKind::TimeNonneg => "时间应为非负整数"@,
        ErrKind::NoDelayBase => "没有可供延迟的前一操作"@,
        ErrKind::ShovelBeforeCard => "铲除时间不能早于用卡时间"@,
        ErrKind::NeedCobArgs => "请提供时间、落点行和落点列"@,
        ErrKind::RemoveExtraArgs => "请删除多余的参数"@,
        ErrKind::CobTailRoofOnly => "炮尾列只能在屋顶场景指定"@,
        ErrKind::CobTailRange => "炮尾列应为 1~8 的整数"@,
        ErrKind::RoofNeedCol => "屋顶场景需指定炮尾列"@,
        ErrKind::LandingColRange => "落点列应为 0~10 的数"@,
        ErrKind::NeedNLandingRows { n } => "请提供 "@ + int_text(n as int) + " 个落点行"@,
        ErrKind::LandingRowRange { max } => "落点行应为 1~"@ + int_text(max as int),
        ErrKind::NeedCardArgs => "请提供时间、用卡行和用卡列"@,
        ErrKind::Need2CardRows => "请至少提供两个用卡行"@,
        ErrKind::CardRowRange { max } => "用卡行应为 1~"@ + int_text(max as int),
        ErrKind::DupCardRow => "用卡行重复"@,
        ErrKind::CardColRange => "用卡列应为 1~9 的整数"@,
        ErrKind::ParamFormat => "参数格式应为 参数:值"@,
        ErrKind::ParamEmpty => "参数名不能为空"@,
        ErrKind::ValueEmpty => "参数值不能为空"@,
        ErrKind::ChooseRange { max } => "choose 应为 1~"@ + int_text(max as int),
        ErrKind::DupWaves => "waves 中波数重复"@,
        ErrKind::WavesRange { max } => "waves 应为 1~"@ + int_text(max as int),
        ErrKind::UnknownParam => "未知参数（支持 choose waves）"@,
        ErrKind::NeedChoose => "请提供 choose 参数"@,
        ErrKind::NeedVarExpr => "请提供变量名和表达式"@,
        ErrKind::VarNameEmpty => "变量名不能为空"@,
        ErrKind::VarNameNotNumeric => "变量名不能为纯数字"@,
        ErrKind::ExprEmpty => "表达式不能为空"@,
        ErrKind::ExprChars => "表达式只能包含数字与 + - * / ( )"@,
        ErrKind::ExprInvalid => "表达式无效"@,
        ErrKind::SetWaveFirst => "请先设定波次"@,
    }
}

/// The message of an error: `第<line>行：<what>`, then `：<text>` where there
/// is offending text.
pub open spec fn message_text(e: SemlErrorV) -> Seq<char> {
    "第"@ + int_text(e.line as int) + "行："@ + kind_text(e.kind, e.detail) + if e.src.len() > 0 {
        "："@ + e.src
    } else {
        Seq::empty()
    }
}

fn push_kind_text(out: &mut Vec<char>, kind: ErrKind, detail: &[char])
    ensures
        final(out)@ == old(out)@ + kind_text(kind, detail@),
{
    match kind {
        ErrKind::UnknownSymbol => push_str(out, "未知符号"),
        ErrKind::WaveNumPositiveInt => push_str(out, "波数应为 1~99 的正整数"),
        ErrKind::StartWaveGtEnd => push_str(out, "起始波数不能大于终止波数"),
        ErrKind::DupParam => push_str(out, "参数重复"),
        ErrKind::UnknownScene => push_str(out, "未知场景（支持 DE NE PE FE RE ME）"),
        ErrKind::ProtectValueEmpty => push_str(out, "保护位置不能为空"),
        ErrKind::NeedProtectRowCol => push_str(out, "保护位置需给出行和列"),
        ErrKind::ProtectRowRange { max } => {
            push_str(out, "保护行应为 1~");
            push_int_text(out, max as i128);
        },
        ErrKind::ColRange { normal, min } => {
            if normal {
                push_str(out, "普通植物");
            } else {
                push_str(out, "炮");
            }
            push_str(out, "列应为 ");
            push_int_text(out, min as i128);
            push_str(out, "~9");
        },
        ErrKind::ProtectOverlap => push_str(out, "保护位置重叠"),
        ErrKind::ValuePositiveInt => {
            append(out, detail);
            push_str(out, "的值应为正整数");
        },
        ErrKind::ValueBool => {
            append(out, detail);
            push_str(out, "的值应为 true 或 false");
        },
        ErrKind::UnknownZombieCn => push_str(out, "未知僵尸类型"),
        ErrKind::UnknownZombieEn => {
            push_str(out, "未知僵尸类型");
            if detail.len() > 0 {
                push_str(out, "，是否想输入 ");
                append(out, detail);
                push_str(out, "？");
            }
        },
        ErrKind::CannotSpecifyZombie => push_str(out, "不能指定该僵尸"),
        ErrKind::DupZombie => push_str(out, "僵尸类型重复"),
        ErrKind::SceneCannotZombie => {
            append(out, detail);
            push_str(out, " 场景不能出现该僵尸");
        },
        ErrKind::NeedWaveLength => push_str(out, "请提供波长"),
        ErrKind::DupWaveNum => push_str(out, "波数重复"),
        ErrKind::NeedSetWaveN { prev } => {
            push_str(out, "请先设定第 ");
            push_int_text(out, prev as i128 + 1);
            push_str(out, " 波");
        },
        ErrKind::AvzTimeIcePositive => push_str(out, "avzTime 下用冰时机应为正整数"),
        ErrKind::IceNonneg => push_str(out, "用冰时机应为非负整数"),
        ErrKind::WaveLenGeLastIce => push_str(out, "波长不能小于最后一次用冰时机"),
        ErrKind::WaveLenPositive => push_str(out, "波长应为正整数"),
        ErrKind::StartLeWavelen => push_str(out, "起始时刻应为不超过波长的非负整数"),
        ErrKind::TimeNonneg => push_str(out, "时间应为非负整数"),
        ErrKind::NoDelayBase => push_str(out, "没有可供延迟的前一操作"),
        ErrKind::ShovelBeforeCard => push_str(out, "铲除时间不能早于用卡时间"),
        ErrKind::NeedCobArgs => push_str(out, "请提供时间、落点行和落点列"),
        ErrKind::RemoveExtraArgs => push_str(out, "请删除多余的参数"),
        ErrKind::CobTailRoofOnly => push_str(out, "炮尾列只能在屋顶场景指定"),
        ErrKind::CobTailRange => push_str(out, "炮尾列应为 1~8 的整数"),
        ErrKind::RoofNeedCol => push_str(out, "屋顶场景需指定炮尾列"),
        ErrKind::LandingColRange => push_str(out, "落点列应为 0~10 的数"),
        ErrKind::NeedNLandingRows { n } => {
            push_str(out, "请提供 ");
            push_int_text(out, n as i128);
            push_str(out, " 个落点行");
        },
        ErrKind::LandingRowRange { max } => {
            push_str(out, "落点行应为 1~");
            push_int_text(out, max as i128);
        },
        ErrKind::NeedCardArgs => push_str(out, "请提供时间、用卡行和用卡列"),
        ErrKind::Need2CardRows => push_str(out, "请至少提供两个用卡行"),
        ErrKind::CardRowRange { max } => {
            push_str(out, "用卡行应为 1~");
            push_int_text(out, max as i128);
        },
        ErrKind::DupCardRow => push_str(out, "用卡行重复"),
        ErrKind::CardColRange => push_str(out, "用卡列应为 1~9 的整数"),
        ErrKind::ParamFormat => push_str(out, "参数格式应为 参数:值"),
        ErrKind::ParamEmpty => push_str(out, "参数名不能为空"),
        ErrKind::ValueEmpty => push_str(out, "参数值不能为空"),
        ErrKind::ChooseRange { max } => {
            push_str(out, "choose 应为 1~");
            push_int_text(out, max as i128);
        },
        ErrKind::DupWaves => push_str(out, "waves 中波数重复"),
        ErrKind::WavesRange { max } => {
            push_str(out, "waves 应为 1~");
            push_int_text(out, max as i128);
        },
        ErrKind::UnknownParam => push_str(out, "未知参数（支持 choose waves）"),
        ErrKind::NeedChoose => push_str(out, "请提供 choose 参数"),
        ErrKind::NeedVarExpr => push_str(out, "请提供变量名和表达式"),
        ErrKind::VarNameEmpty => push_str(out, "变量名不能为空"),
        ErrKind::VarNameNotNumeric => push_str(out, "变量名不能为纯数字"),
        ErrKind::ExprEmpty => push_str(out, "表达式不能为空"),
        ErrKind::ExprChars => push_str(out, "表达式只能包含数字与 + - * / ( )"),
        ErrKind::ExprInvalid => push_str(out, "表达式无效"),
        ErrKind::SetWaveFirst => push_str(out, "请先设定波次"),
    }
}

impl SemlError {
    /// The error as a message.
    pub fn message(&self) -> (r: String)
        ensures
            r@ == message_text(self@),
    {
        let mut out: Vec<char> = Vec::new();
        push_str(&mut out, "第");
        push_int_text(&mut out, self.line as i128);
        push_str(&mut out, "行：");
        let detail = chars_of(self.detail.as_str());
        push_kind_text(&mut out, self.kind, detail.as_slice());
        let src = chars_of(self.src.as_str());
        if src.len() > 0 {
            push_str(&mut out, "：");
            append(&mut out, src.as_slice());
        }
        string_of(out.as_slice())
    }
}

} // verus!
