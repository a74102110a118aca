//! Zombie-type name strings and the small row filters of the result tables.
use vstd::prelude::*;
use crate::seml::zombie::{
    name, name_spec, BALLOON, BUCKETHEAD, BUNGEE, CATAPULT, CONEHEAD, DANCING, DIGGER,
    DOLPHIN_RIDER, FOOTBALL, GARGANTUAR, GIGA_GARGANTUAR, JACK_IN_THE_BOX, LADDER, NEWSPAPER,
    POGO, POLE_VAULTING, SCREENDOOR, SNORKEL, ZOMBIE, ZOMBONI,
};
use crate::text::{append, chars_of, int_text};

verus! {

/// The zombie types that have a display name, in ascending id order.
pub open spec fn named_types() -> Seq<i32> {
    seq![
        ZOMBIE,
        CONEHEAD,
        POLE_VAULTING,
        BUCKETHEAD,
        NEWSPAPER,
        SCREENDOOR,
        FOOTBALL,
        DANCING,
        SNORKEL,
        ZOMBONI,
        DOLPHIN_RIDER,
        JACK_IN_THE_BOX,
        BALLOON,
        DIGGER,
        POGO,
        BUNGEE,
        LADDER,
        CATAPULT,
        GARGANTUAR,
        GIGA_GARGANTUAR,
    ]
}

fn named_types_exec() -> (r: Vec<i32>)
    ensures
        r@ == named_types(),
{
    let r = vec![
        ZOMBIE,
        CONEHEAD,
        POLE_VAULTING,
        BUCKETHEAD,
        NEWSPAPER,
        SCREENDOOR,
        FOOTBALL,
        DANCING,
        SNORKEL,
        ZOMBONI,
        DOLPHIN_RIDER,
        JACK_IN_THE_BOX,
        BALLOON,
        DIGGER,
        POGO,
        BUNGEE,
        LADDER,
        CATAPULT,
        GARGANTUAR,
        GIGA_GARGANTUAR,
    ];
    assert(r@ =~= named_types());
    r
}

/// The first `n` named types, each as its name where it is in `types` and as
/// `fallback` where it is not.
pub open spec fn names_upto(types: Seq<i32>, fallback: Seq<char>, n: int) -> Seq<char>
    decreases n,
{
    if n <= 0 {
        Seq::empty()
    } else {
        let t = named_types()[n - 1];
        names_upto(types, fallback, n - 1) + if types.contains(t) {
            name_spec(t)
        } else {
            fallback
        }
    }
}

/// A set of zombie types as one string: every named type in id order, present
/// ones by name and absent ones as `fallback`; `无` for the empty set.
pub open spec fn types_text(types: Seq<i32>, fallback: Seq<char>) -> Seq<char> {
    if types.len() == 0 {
        "无"@
    } else {
        names_upto(types, fallback, 20)
    }
}


fn contains_type(types: &[i32], t: i32) -> (r: bool)
    ensures
        r == types@.contains(t),
{
    let mut i: usize = 0;
    while i < types.len()
        invariant
            i <= types@.len(),
            forall|j: int| 0 <= j < i ==> types@[j] != t,
        decreases types@.len() - i,
    {
        if types[i] == t {
            return true;
        }
        i = i + 1;
    }
    false
}

/// The types of a set (each listed once) as one string.
pub fn zombie_types_to_names(types: &[i32], fallback: &str) -> (r: String)
    ensures
        r@ == types_text(types@, fallback@),
{
    if types.len() == 0 {
        return "无".to_owned();
    }
    let named = named_types_exec();
    let fb = chars_of(fallback);
    let mut s: Vec<char> = Vec::new();
    let mut i: usize = 0;
    while i < named.len()
        invariant
            i <= named@.len(),
            named@ == named_types(),
            fb@ == fallback@,
            s@ == names_upto(types@, fallback@, i as int),
        decreases named@.len() - i,
    {
        let t = named[i];
        if contains_type(types, t) {
            let n = chars_of(name(t).as_str());
            append(&mut s, n.as_slice());
        } else {
            append(&mut s, fb.as_slice());
        }
        i = i + 1;
    }
    crate::text::string_of(s.as_slice())
}

/// Every named type's name, in id order.
pub open spec fn all_names_text() -> Seq<char> {
    names_upto(named_types(), Seq::empty(), 20)
}

pub fn all_zombie_types_to_names() -> (r: String)
    ensures
        r@ == all_names_text(),
{
    let named = named_types_exec();
    let mut s: Vec<char> = Vec::new();
    let mut i: usize = 0;
    while i < named.len()
        invariant
            i <= named@.len(),
            named@ == named_types(),
            s@ == names_upto(named_types(), Seq::empty(), i as int),
        decreases named@.len() - i,
    {
        let t = named[i];
        assert(named_types().contains(t)) by {
            assert(named_types()[i as int] == t);
        }
        let n = chars_of(name(t).as_str());
        append(&mut s, n.as_slice());
        i = i + 1;
    }
    crate::text::string_of(s.as_slice())
}

/// The result column for an operation's state: `HIT`, `MISS`, or empty for
/// a zombie that is dead or not yet born.
pub open spec fn op_state_text(state: i64) -> Seq<char> {
    if state == 1 {
        "HIT"@
    } else if state == 2 {
        "MISS"@
    } else {
        ""@
    }
}

pub fn op_state_to_string(state: i64) -> (r: &'static str)
    ensures
        r@ == op_state_text(state),
{
    if state == 1 {
        "HIT"
    } else if state == 2 {
        "MISS"
    } else {
        ""
    }
}

/// In compact tables only the first and last tick and every fiftieth are kept.
pub fn sample_tick(tick: i64, start: i64, end: i64) -> (r: bool)
    ensures
        r == (tick == start || tick == end || tick % 50 == 0),
{
    tick == start || tick == end || tick % 50 == 0
}

/// The parts joined with `sep` between them.
pub open spec fn joined(parts: Seq<Seq<char>>, sep: Seq<char>) -> Seq<char>
    decreases parts.len(),
{
    if parts.len() == 0 {
        Seq::empty()
    } else if parts.len() == 1 {
        parts[0]
    } else {
        joined(parts.drop_last(), sep) + sep + parts.last()
    }
}

/// The operations among the first `n` whose state is `Hit` (1), in order.
pub open spec fn hit_ops(ops: Seq<(i64, Seq<char>)>, states: Seq<i64>, n: int) -> Seq<
    (i64, Seq<char>),
>
    decreases n,
{
    if n <= 0 {
        Seq::empty()
    } else {
        hit_ops(ops, states, n - 1) + if states[n - 1] == 1 {
            seq![ops[n - 1]]
        } else {
            Seq::empty()
        }
    }
}

/// Consecutive operations of one wave grouped together.
pub open spec fn group_ops(h: Seq<(i64, Seq<char>)>) -> Seq<(i64, Seq<Seq<char>>)>
    decreases h.len(),
{
    if h.len() == 0 {
        Seq::empty()
    } else {
        let g = group_ops(h.drop_last());
        let x = h.last();
        if g.len() > 0 && g.last().0 == x.0 {
            g.update(g.len() - 1, (x.0, g.last().1.push(x.1)))
        } else {
            g.push((x.0, seq![x.1]))
        }
    }
}

pub open spec fn group_text(g: (i64, Seq<Seq<char>>)) -> Seq<char> {
    "w"@ + int_text(g.0 as int) + " "@ + joined(g.1, ", "@)
}

/// The operations that were effective (hit) in a row of the smash table:
/// `w<wave> <op>, <op>; w<wave> ...`, or `—` where none was.
pub open spec fn effective_ops_text(ops: Seq<(i64, Seq<char>)>, states: Seq<i64>) -> Seq<char> {
    let n = if ops.len() < states.len() {
        ops.len()
    } else {
        states.len()
    };
    let g = group_ops(hit_ops(ops, states, n as int));
    if g.len() == 0 {
        "—"@
    } else {
        joined(g.map_values(|x: (i64, Seq<Seq<char>>)| group_text(x)), "; "@)
    }
}

pub open spec fn ops_view(v: Seq<(i64, String)>) -> Seq<(i64, Seq<char>)> {
    Seq::new(v.len(), |i: int| (v[i].0, v[i].1@))
}

pub open spec fn groups_view(v: Seq<(i64, Vec<Vec<char>>)>) -> Seq<(i64, Seq<Seq<char>>)> {
    Seq::new(v.len(), |i: int| (v[i].0, crate::text::views(v[i].1@)))
}

fn push_joined(out: &mut Vec<char>, parts: &Vec<Vec<char>>, sep: &str)
    ensures
        final(out)@ == old(out)@ + joined(crate::text::views(parts@), sep@),
{
    let ghost ps = crate::text::views(parts@);
    let mut i: usize = 0;
    let ghost base = out@;
    assert(ps.take(0) =~= Seq::<Seq<char>>::empty());
    while i < parts.len()
        invariant
            i <= parts@.len(),
            ps == crate::text::views(parts@),
            out@ == base + joined(ps.take(i as int), sep@),
        decreases parts@.len() - i,
    {
        if i > 0 {
            crate::text::push_str(out, sep);
        }
        append(out, parts[i].as_slice());
        assert(ps.take(i + 1).drop_last() =~= ps.take(i as int));
        assert(ps.take(i + 1).last() == parts@[i as int]@);
        i = i + 1;
        assert(out@ =~= base + joined(ps.take(i as int), sep@));
    }
    assert(ps.take(i as int) =~= ps);
}

/// The effective operations of a smash-table row: `ops` pairs each operation's
/// wave with its description, `states` gives each one's outcome.
pub fn effective_smash_ops(ops: &Vec<(i64, String)>, states: &Vec<i64>) -> (r: String)
    ensures
        r@ == effective_ops_text(ops_view(ops@), states@),
{
    let ghost ov = ops_view(ops@);
    let n = if ops.len() < states.len() {
        ops.len()
    } else {
        states.len()
    };
    let mut groups: Vec<(i64, Vec<Vec<char>>)> = Vec::new();
    let mut i: usize = 0;
    while i < n
        invariant
            i <= n,
            n <= ops@.len(),
            n <= states@.len(),
            ov == ops_view(ops@),
            groups_view(groups@) == group_ops(hit_ops(ov, states@, i as int)),
        decreases n - i,
    {
        if states[i] == 1 {
            let wave = ops[i].0;
            let desc = chars_of(ops[i].1.as_str());
            let ghost h = hit_ops(ov, states@, i as int);
            assert(hit_ops(ov, states@, i + 1) =~= h.push((wave, desc@)));
            assert(h.push((wave, desc@)).drop_last() =~= h);
            let ghost gv = groups_view(groups@);
            let k = groups.len();
            if k > 0 && groups[k - 1].0 == wave {
                let (w, mut labels) = groups.pop().unwrap();
                let ghost lv = crate::text::views(labels@);
                labels.push(desc);
                assert(crate::text::views(labels@) =~= lv.push(desc@));
                groups.push((w, labels));
                assert(groups_view(groups@) =~= gv.update(gv.len() - 1, (wave, gv.last().1.push(desc@))));
            } else {
                let mut labels: Vec<Vec<char>> = Vec::new();
                labels.push(desc);
                assert(crate::text::views(labels@) =~= seq![desc@]);
                groups.push((wave, labels));
                assert(groups_view(groups@) =~= gv.push((wave, seq![desc@])));
            }
        } else {
            assert(hit_ops(ov, states@, i + 1) =~= hit_ops(ov, states@, i as int));
        }
        i = i + 1;
    }
    let ghost gv = groups_view(groups@);
    if groups.len() == 0 {
        return "—".to_owned();
    }
    let ghost texts = gv.map_values(|x: (i64, Seq<Seq<char>>)| group_text(x));
    let mut out: Vec<char> = Vec::new();
    let mut j: usize = 0;
    assert(texts.take(0) =~= Seq::<Seq<char>>::empty());
    while j < groups.len()
        invariant
            j <= groups@.len(),
            gv == groups_view(groups@),
            texts == gv.map_values(|x: (i64, Seq<Seq<char>>)| group_text(x)),
            out@ == joined(texts.take(j as int), "; "@),
        decreases groups@.len() - j,
    {
        if j > 0 {
            crate::text::push_str(&mut out, "; ");
        }
        let ghost before = out@;
        crate::text::push_str(&mut out, "w");
        crate::text::push_int_text(&mut out, groups[j].0 as i128);
        crate::text::push_str(&mut out, " ");
        push_joined(&mut out, &groups[j].1, ", ");
        assert(out@ =~= before + group_text(gv[j as int]));
        assert(texts.take(j + 1).drop_last() =~= texts.take(j as int));
        j = j + 1;
        assert(out@ =~= joined(texts.take(j as int), "; "@));
    }
    assert(texts.take(j as int) =~= texts);
    crate::text::string_of(out.as_slice())
}

} // verus!
