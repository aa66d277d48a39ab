//! The datasets of a boot environment and the `zfs` calls that make them.

use vstd::prelude::*;

use crate::boot_environment::{be_base, be_root};
use crate::cmd::{arg_refs, arg_seq, check_exit, checked, ran_ok, unit_view, CmdOutput, CommandRunner};
use crate::run_log::{
    added, extends, lemma_none, lemma_pushed, lemma_then, ran_as, single_run, Run, RunLog,
};
use crate::text::{
    chars_eq, chars_of, chars_to_string, extend, extend_str, join, join_with, slice, split_char,
    split_on, views,
};

verus! {

pub struct DatasetConfig {
    pub name: String,
    pub properties: Vec<(String, String)>,
}

/// A property list as plain values.
pub open spec fn prop_views(v: Seq<(String, String)>) -> Seq<(Seq<char>, Seq<char>)> {
    v.map_values(|p: (String, String)| (p.0@, p.1@))
}

/// A dataset configuration as plain values.
pub open spec fn dataset_view(d: DatasetConfig) -> (Seq<char>, Seq<(Seq<char>, Seq<char>)>) {
    (d.name@, prop_views(d.properties@))
}

fn prop(k: &str, v: &str) -> (r: (String, String))
    ensures
        r.0@ == k@,
        r.1@ == v@,
{
    (k.to_string(), v.to_string())
}

/// The layout of every boot environment: `root` mounted at `/` but only
/// on demand, `data/home`, `data/root` and `vm` at their own paths.
pub fn default_datasets() -> (r: Vec<DatasetConfig>)
    ensures
        r@.map_values(|d: DatasetConfig| dataset_view(d)) == seq![
            ("root"@, seq![("mountpoint"@, "/"@), ("canmount"@, "noauto"@)]),
            ("data/home"@, seq![("mountpoint"@, "/home"@)]),
            ("data/root"@, seq![("mountpoint"@, "/root"@)]),
            ("vm"@, seq![("mountpoint"@, "/vm"@)]),
        ],
{
    let r = vec![
        DatasetConfig {
            name: "root".to_string(),
            properties: vec![prop("mountpoint", "/"), prop("canmount", "noauto")],
        },
        DatasetConfig { name: "data/home".to_string(), properties: vec![prop("mountpoint", "/home")] },
        DatasetConfig { name: "data/root".to_string(), properties: vec![prop("mountpoint", "/root")] },
        DatasetConfig { name: "vm".to_string(), properties: vec![prop("mountpoint", "/vm")] },
    ];
    assert(prop_views(r@[0].properties@) =~= seq![("mountpoint"@, "/"@), ("canmount"@, "noauto"@)]);
    assert(prop_views(r@[1].properties@) =~= seq![("mountpoint"@, "/home"@)]);
    assert(prop_views(r@[2].properties@) =~= seq![("mountpoint"@, "/root"@)]);
    assert(prop_views(r@[3].properties@) =~= seq![("mountpoint"@, "/vm"@)]);
    assert(r@.map_values(|d: DatasetConfig| dataset_view(d)) =~= seq![
        ("root"@, seq![("mountpoint"@, "/"@), ("canmount"@, "noauto"@)]),
        ("data/home"@, seq![("mountpoint"@, "/home"@)]),
        ("data/root"@, seq![("mountpoint"@, "/root"@)]),
        ("vm"@, seq![("mountpoint"@, "/vm"@)]),
    ]);
    r
}

/// `-o key=value` for each property.
pub open spec fn option_args(props: Seq<(Seq<char>, Seq<char>)>) -> Seq<Seq<char>>
    decreases props.len(),
{
    if props.len() == 0 {
        seq![]
    } else {
        option_args(props.drop_last()) + seq![
            "-o"@,
            props.last().0 + seq!['='] + props.last().1,
        ]
    }
}

/// `zfs create -o k=v … <name>`.
pub open spec fn create_args(name: Seq<char>, props: Seq<(Seq<char>, Seq<char>)>) -> Seq<Seq<char>> {
    seq!["create"@] + option_args(props) + seq![name]
}

pub open spec fn arg_views(v: Seq<String>) -> Seq<Seq<char>> {
    v.map_values(|s: String| s@)
}

/// The arguments of `zfs` that create `full_name` with `properties`.
pub fn create_dataset_args(full_name: &str, properties: &Vec<(String, String)>) -> (r: Vec<String>)
    ensures
        arg_views(r@) == create_args(full_name@, prop_views(properties@)),
{
    let mut r: Vec<String> = Vec::new();
    r.push("create".to_string());
    for i in 0..properties.len()
        invariant
            arg_views(r@) == seq!["create"@] + option_args(
                prop_views(properties@.take(i as int)),
            ),
    {
        let mut kv = chars_of(properties[i].0.as_str());
        kv.push('=');
        extend_str(&mut kv, properties[i].1.as_str());
        assert(kv@ == properties@[i as int].0@ + seq!['='] + properties@[i as int].1@);
        assert(prop_views(properties@.take(i + 1)).last() == (properties@[i as int].0@, properties@[i as int].1@));
        let ghost before = r@;
        r.push("-o".to_string());
        r.push(chars_to_string(&kv));
        assert(prop_views(properties@.take(i + 1)).drop_last() == prop_views(
            properties@.take(i as int),
        ));
        assert(arg_views(r@) =~= arg_views(before) + seq!["-o"@, kv@]);
    }
    assert(properties@.take(properties.len() as int) == properties@);
    let ghost before = r@;
    r.push(full_name.to_string());
    assert(arg_views(r@) =~= arg_views(before) + seq![full_name@]);
    r
}

/// The arguments of `zfs` that set `property=value` on `dataset`.
pub fn set_property_args(dataset: &str, property: &str, value: &str) -> (r: Vec<String>)
    ensures
        arg_views(r@) == seq!["set"@, property@ + seq!['='] + value@, dataset@],
{
    let mut pv = chars_of(property);
    pv.push('=');
    extend_str(&mut pv, value);
    let mut r: Vec<String> = Vec::new();
    r.push("set".to_string());
    r.push(chars_to_string(&pv));
    r.push(dataset.to_string());
    assert(pv@ =~= property@ + seq!['='] + value@);
    assert(arg_views(r@) =~= seq!["set"@, property@ + seq!['='] + value@, dataset@]);
    r
}

// ───────────────────────── creating the children ──────────────────────

/// The depth of a dataset name: how many `/` it holds.
pub open spec fn depth(s: Seq<char>) -> nat
    decreases s.len(),
{
    if s.len() == 0 {
        0
    } else {
        depth(s.drop_last()) + if s.last() == '/' {
            1nat
        } else {
            0nat
        }
    }
}

/// `order` lists every index of `ds` once, shallowest first and, among
/// equally deep ones, in the given order: a stable sort by depth.
pub open spec fn depth_sorted(ds: Seq<DatasetConfig>, order: Seq<int>) -> bool {
    &&& forall|k: int| 0 <= k < order.len() ==> 0 <= #[trigger] order[k] < ds.len()
    &&& forall|i: int| 0 <= i < ds.len() ==> order.contains(i)
    &&& order.no_duplicates()
    &&& forall|a: int, b: int|
        #![trigger order[a], order[b]]
        0 <= a < b < order.len() ==> depth(ds[order[a]].name@) < depth(ds[order[b]].name@) || (
        depth(ds[order[a]].name@) == depth(ds[order[b]].name@) && order[a] < order[b])
}

/// The parent of a nested dataset name: all but its last component.
pub open spec fn parent_name(name: Seq<char>) -> Seq<char> {
    join_with(split_on(name, '/').drop_last(), seq!['/'])
}

/// `pool/prefix/name`.
pub open spec fn under(pool: Seq<char>, prefix: Seq<char>, name: Seq<char>) -> Seq<char> {
    pool + seq!['/'] + prefix + seq!['/'] + name
}

/// A creation step: full dataset name and properties.
pub type Step = (Seq<char>, Seq<(Seq<char>, Seq<char>)>);

/// The creations for the datasets `order[..n]`, and the names created.
pub open spec fn creations(
    ds: Seq<DatasetConfig>,
    order: Seq<int>,
    pool: Seq<char>,
    prefix: Seq<char>,
    n: int,
) -> (Seq<Step>, Set<Seq<char>>)
    decreases n,
{
    if n <= 0 {
        (seq![], Set::empty())
    } else {
        let (steps, made) = creations(ds, order, pool, prefix, n - 1);
        let d = ds[order[n - 1]];
        let (steps, made) = if split_on(d.name@, '/').len() > 1 && !made.contains(
            under(pool, prefix, parent_name(d.name@)),
        ) {
            let p = under(pool, prefix, parent_name(d.name@));
            (steps.push((p, seq![("mountpoint"@, "none"@)])), made.insert(p))
        } else {
            (steps, made)
        };
        let full = under(pool, prefix, d.name@);
        (steps.push((full, prop_views(d.properties@))), made.insert(full))
    }
}

/// The datasets to create under `pool/prefix`, parents first: the
/// configurations in a stable order by depth, each preceded by its parent
/// (`mountpoint=none`) when no earlier step created that.
pub open spec fn child_plan(
    ds: Seq<DatasetConfig>,
    pool: Seq<char>,
    prefix: Seq<char>,
    plan: Seq<Step>,
) -> bool {
    exists|order: Seq<int>|
        depth_sorted(ds, order) && plan == creations(ds, order, pool, prefix, ds.len() as int).0
}

fn count_slashes(v: &Vec<char>) -> (r: usize)
    ensures
        r == depth(v@),
{
    let mut n: usize = 0;
    for i in 0..v.len()
        invariant
            n == depth(v@.take(i as int)),
            n <= i,
    {
        assert(v@.take(i + 1).drop_last() == v@.take(i as int));
        if v[i] == '/' {
            n += 1;
        }
    }
    assert(v@.take(v.len() as int) == v@);
    n
}

/// The indices of `ds` in a stable order by depth.
fn depth_order(ds: &Vec<DatasetConfig>) -> (r: Vec<usize>)
    ensures
        depth_sorted(ds@, r@.map_values(|i: usize| i as int)),
{
    let n = ds.len();
    let mut depths: Vec<usize> = Vec::new();
    let mut max: usize = 0;
    for i in 0..n
        invariant
            n == ds.len(),
            depths.len() == i,
            forall|j: int| 0 <= j < i ==> #[trigger] depths@[j] == depth(ds@[j].name@),
            forall|j: int| 0 <= j < i ==> depths@[j] <= max,
    {
        let d = count_slashes(&chars_of(ds[i].name.as_str()));
        depths.push(d);
        if d > max {
            max = d;
        }
    }
    let mut order: Vec<usize> = Vec::new();
    let mut level: usize = 0;
    loop
        invariant_except_break
            n == ds.len(),
            depths.len() == n,
            forall|j: int| 0 <= j < n ==> #[trigger] depths@[j] == depth(ds@[j].name@),
            forall|j: int| 0 <= j < n ==> depths@[j] <= max,
            level <= max,
            forall|k: int| 0 <= k < order.len() ==> #[trigger] order@[k] < n && depths@[order@[k] as int] < level,
            forall|x: usize| x < n && depths@[x as int] < level ==> #[trigger] order@.contains(x),
            order@.no_duplicates(),
            forall|a: int, b: int|
                #![trigger order@[a], order@[b]]
                0 <= a < b < order.len() ==> depths@[order@[a] as int] < depths@[order@[b] as int]
                    || (depths@[order@[a] as int] == depths@[order@[b] as int] && order@[a]
                    < order@[b]),
        ensures
            forall|k: int| 0 <= k < order.len() ==> #[trigger] order@[k] < n,
            forall|x: usize| x < n ==> #[trigger] order@.contains(x),
            order@.no_duplicates(),
            depths.len() == n,
            forall|j: int| 0 <= j < n ==> #[trigger] depths@[j] == depth(ds@[j].name@),
            forall|a: int, b: int|
                #![trigger order@[a], order@[b]]
                0 <= a < b < order.len() ==> depths@[order@[a] as int] < depths@[order@[b] as int]
                    || (depths@[order@[a] as int] == depths@[order@[b] as int] && order@[a]
                    < order@[b]),
        decreases max - level,
    {
        let ghost before = order@;
        for i in 0..n
            invariant
                n == ds.len(),
                depths.len() == n,
                level <= max,
                before.len() <= order.len(),
                forall|k: int| 0 <= k < before.len() ==> #[trigger] order@[k] == before[k],
                forall|k: int| 0 <= k < before.len() ==> #[trigger] before[k] < n && depths@[before[k] as int] < level,
                forall|k: int|
                    before.len() <= k < order.len() ==> #[trigger] order@[k] < i
                        && depths@[order@[k] as int] == level,
                forall|x: usize| x < i && depths@[x as int] == level ==> #[trigger] order@.contains(x),
                forall|x: usize| x < n && depths@[x as int] < level ==> #[trigger] order@.contains(x),
                order@.no_duplicates(),
                forall|a: int, b: int|
                    #![trigger order@[a], order@[b]]
                    0 <= a < b < order.len() ==> depths@[order@[a] as int] < depths@[order@[b] as int]
                        || (depths@[order@[a] as int] == depths@[order@[b] as int] && order@[a]
                        < order@[b]),
        {
            if depths[i] == level {
                let ghost prev = order@;
                order.push(i);
                proof {
                    assert forall|k: int| 0 <= k < prev.len() implies prev[k] != i by {
                        if k >= before.len() {
                            assert(order@[k] == prev[k]);
                        } else {
                            assert(order@[k] == before[k]);
                        }
                    }
                    assert forall|x: usize| x < n && depths@[x as int] < level implies #[trigger] order@.contains(x) by {
                        assert(prev.contains(x));
                        let w = choose|w: int| 0 <= w < prev.len() && prev[w] == x;
                        assert(order@[w] == x);
                    }
                    assert forall|x: usize| x < i + 1 && depths@[x as int] == level implies #[trigger] order@.contains(x) by {
                        if x < i {
                            assert(prev.contains(x));
                            let w = choose|w: int| 0 <= w < prev.len() && prev[w] == x;
                            assert(order@[w] == x);
                        } else {
                            assert(order@[prev.len() as int] == i);
                        }
                    }
                    assert forall|a: int, b: int|
                        0 <= a < b < order.len() implies #[trigger] depths@[order@[a] as int] < depths@[#[trigger] order@[b] as int]
                            || (depths@[order@[a] as int] == depths@[order@[b] as int] && order@[a]
                            < order@[b]) by {
                        if b < prev.len() {
                            assert(order@[a] == prev[a] && order@[b] == prev[b]);
                        } else {
                            assert(order@[b] == i);
                            if a >= before.len() {
                                assert(order@[a] == prev[a]);
                            }
                        }
                    }
                }
            }
        }
        if level == max {
            proof {
                assert forall|x: usize| x < n implies #[trigger] order@.contains(x) by {
                    assert(depths@[x as int] <= max);
                }
            }
            break;
        }
        level = level + 1;
        proof {
            assert forall|k: int| 0 <= k < order.len() implies #[trigger] order@[k] < n && depths@[order@[k] as int] < level by {
                if k < before.len() {
                } else {
                }
            }
        }
    }
    proof {
        let o = order@.map_values(|i: usize| i as int);
        assert forall|i: int| 0 <= i < ds@.len() implies o.contains(i) by {
            assert(order@.contains(i as usize));
            let w = choose|w: int| 0 <= w < order@.len() && order@[w] == i as usize;
            assert(o[w] == i);
        }
        assert forall|a: int, b: int| 0 <= a < o.len() && 0 <= b < o.len() && a != b implies o[a] != o[b] by {
            assert(order@[a] != order@[b]);
        }
        assert forall|a: int, b: int|
            #![trigger o[a], o[b]]
            0 <= a < b < o.len() implies depth(ds@[o[a]].name@) < depth(ds@[o[b]].name@) || (
            depth(ds@[o[a]].name@) == depth(ds@[o[b]].name@) && o[a] < o[b]) by {
            assert(depths@[order@[a] as int] == depth(ds@[o[a]].name@));
            assert(depths@[order@[b] as int] == depth(ds@[o[b]].name@));
        }
    }
    order
}

fn contains_name(names: &Vec<Vec<char>>, n: &Vec<char>) -> (r: bool)
    ensures
        r == views(names@).contains(n@),
{
    for i in 0..names.len()
        invariant
            forall|j: int| 0 <= j < i ==> names@[j]@ != n@,
    {
        if chars_eq(&names[i], n) {
            assert(views(names@)[i as int] == n@);
            return true;
        }
    }
    proof {
        if views(names@).contains(n@) {
            let w = choose|w: int| 0 <= w < views(names@).len() && views(names@)[w] == n@;
            assert(names@[w]@ == n@);
        }
    }
    false
}

fn under_exec(pool: &str, prefix: &str, name: &Vec<char>) -> (r: Vec<char>)
    ensures
        r@ == under(pool@, prefix@, name@),
{
    let mut v = chars_of(pool);
    v.push('/');
    extend_str(&mut v, prefix);
    v.push('/');
    extend(&mut v, name);
    assert(v@ =~= under(pool@, prefix@, name@));
    v
}

/// A creation step as plain values.
pub open spec fn step_view(s: (String, Vec<(String, String)>)) -> Step {
    (s.0@, prop_views(s.1@))
}

/// The datasets to create for a boot environment's children, in order,
/// with their properties. Sorting by depth creates parents first; a
/// missing parent (`data` for `data/home`) is created with
/// `mountpoint=none` before its first child.
pub fn child_dataset_plan(pool: &str, prefix: &str, datasets: &Vec<DatasetConfig>) -> (r: Vec<
    (String, Vec<(String, String)>),
>)
    ensures
        child_plan(datasets@, pool@, prefix@, r@.map_values(|s: (String, Vec<(String, String)>)| step_view(s))),
{
    let order = depth_order(datasets);
    let ghost o = order@.map_values(|i: usize| i as int);
    let mut steps: Vec<(String, Vec<(String, String)>)> = Vec::new();
    let mut made: Vec<Vec<char>> = Vec::new();
    let mut k: usize = 0;
    while k < order.len()
        invariant
            k <= order.len(),
            depth_sorted(datasets@, o),
            o == order@.map_values(|i: usize| i as int),
            ({
                let (st, mset) = creations(datasets@, o, pool@, prefix@, k as int);
                &&& steps@.map_values(|s: (String, Vec<(String, String)>)| step_view(s)) == st
                &&& forall|x: Seq<char>| #[trigger] mset.contains(x) == views(made@).contains(x)
            }),
        decreases order.len() - k,
    {
        let i = order[k];
        assert(o[k as int] == i as int);
        let d = &datasets[i];
        let name = chars_of(d.name.as_str());
        let parts = split_char(&name, '/');
        let ghost (st0, m0) = creations(datasets@, o, pool@, prefix@, k as int);
        let ghost dn = datasets@[o[k as int]];
        assert(dn == *d);
        let ghost pfull = under(pool@, prefix@, parent_name(d.name@));
        let ghost mid: (Seq<Step>, Set<Seq<char>>) = if split_on(d.name@, '/').len() > 1 && !m0.contains(pfull) {
            (st0.push((pfull, seq![("mountpoint"@, "none"@)])), m0.insert(pfull))
        } else {
            (st0, m0)
        };
        assert(views(parts@).len() == parts.len());
        if parts.len() > 1 {
            let mut slash: Vec<char> = Vec::new();
            slash.push('/');
            let mut init = parts;
            let ghost pv = views(init@);
            init.pop();
            assert(views(init@) =~= pv.drop_last());
            let parent = join(&init, &slash);
            let full_parent = under_exec(pool, prefix, &parent);
            if !contains_name(&made, &full_parent) {
                let ghost before = steps@;
                steps.push(
                    (
                        chars_to_string(&full_parent),
                        vec![("mountpoint".to_string(), "none".to_string())],
                    ),
                );
                let ghost mb = made@;
                made.push(full_parent);
                proof {
                    assert(prop_views(steps@.last().1@) =~= seq![("mountpoint"@, "none"@)]);
                    assert(steps@.map_values(|s: (String, Vec<(String, String)>)| step_view(s))
                        =~= before.map_values(|s: (String, Vec<(String, String)>)| step_view(s)).push(
                        step_view(steps@.last()),
                    ));
                    assert(views(made@) =~= views(mb).push(full_parent@));
                    assert forall|x: Seq<char>| views(made@).contains(x) == (views(mb).contains(x) || x == full_parent@) by {
                        if views(made@).contains(x) {
                            let w = choose|w: int| 0 <= w < views(made@).len() && views(made@)[w] == x;
                            if w < views(mb).len() {
                                assert(views(mb)[w] == x);
                            }
                        }
                        if views(mb).contains(x) {
                            let w = choose|w: int| 0 <= w < views(mb).len() && views(mb)[w] == x;
                            assert(views(made@)[w] == x);
                        }
                        if x == full_parent@ {
                            assert(views(made@)[views(mb).len() as int] == x);
                        }
                    }
                }
            }
        }
        assert(steps@.map_values(|s: (String, Vec<(String, String)>)| step_view(s)) == mid.0);
        assert(forall|x: Seq<char>| #[trigger] mid.1.contains(x) == views(made@).contains(x));
        let full = under_exec(pool, prefix, &name);
        let props = copy_props(&d.properties);
        let ghost before = steps@;
        steps.push((chars_to_string(&full), props));
        let ghost mb = made@;
        made.push(full);
        proof {
            assert(steps@.map_values(|s: (String, Vec<(String, String)>)| step_view(s))
                =~= before.map_values(|s: (String, Vec<(String, String)>)| step_view(s)).push(
                step_view(steps@.last()),
            ));
            assert(views(made@) =~= views(mb).push(full@));
            assert(creations(datasets@, o, pool@, prefix@, k + 1) == (mid.0.push((full@, prop_views(d.properties@))), mid.1.insert(full@)));
            assert(step_view(steps@.last()) == (full@, prop_views(d.properties@)));
            let m1 = creations(datasets@, o, pool@, prefix@, k + 1).1;
            assert forall|x: Seq<char>| #[trigger] m1.contains(x) == views(made@).contains(x) by {
                assert(mid.1.contains(x) == views(mb).contains(x));
                if views(made@).contains(x) {
                    let w = choose|w: int| 0 <= w < views(made@).len() && views(made@)[w] == x;
                    if w < views(mb).len() {
                        assert(views(mb)[w] == x);
                    }
                }
                if views(mb).contains(x) {
                    let w = choose|w: int| 0 <= w < views(mb).len() && views(mb)[w] == x;
                    assert(views(made@)[w] == x);
                }
                if x == full@ {
                    assert(views(made@)[views(mb).len() as int] == x);
                }
            }
        }
        k = k + 1;
    }
    proof {
        assert(o.len() == datasets@.len()) by {
            lemma_perm_len(datasets@, o);
        }
    }
    r_steps(steps)
}

fn copy_props(p: &Vec<(String, String)>) -> (r: Vec<(String, String)>)
    ensures
        prop_views(r@) == prop_views(p@),
{
    let mut props: Vec<(String, String)> = Vec::new();
    let mut j: usize = 0;
    while j < p.len()
        invariant
            j <= p.len(),
            props.len() == j,
            forall|x: int| 0 <= x < j ==> #[trigger] props@[x].0@ == p@[x].0@ && props@[x].1@
                == p@[x].1@,
        decreases p.len() - j,
    {
        props.push((p[j].0.clone(), p[j].1.clone()));
        j = j + 1;
    }
    assert(prop_views(props@) =~= prop_views(p@));
    props
}

fn r_steps(s: Vec<(String, Vec<(String, String)>)>) -> (r: Vec<(String, Vec<(String, String)>)>)
    ensures
        r == s,
{
    s
}

proof fn lemma_perm_len(ds: Seq<DatasetConfig>, o: Seq<int>)
    requires
        depth_sorted(ds, o),
    ensures
        o.len() == ds.len(),
{
    let s = Set::new(|i: int| 0 <= i < ds.len());
    assert(o.to_set() =~= s) by {
        assert forall|i: int| s.contains(i) implies o.to_set().contains(i) by {
            assert(o.contains(i));
        }
    }
    o.unique_seq_to_set();
    assert(s =~= vstd::set_lib::set_int_range(0, ds.len() as int));
    vstd::set_lib::lemma_int_range(0, ds.len() as int);
}


/// Whether some step of `steps` creates `name`.
pub open spec fn names_step(steps: Seq<Step>, name: Seq<char>) -> bool {
    exists|i: int| 0 <= i < steps.len() && #[trigger] steps[i].0 == name
}

/// The names recorded as made are exactly the names of the steps so far.
proof fn lemma_made_are_steps(
    ds: Seq<DatasetConfig>,
    order: Seq<int>,
    pool: Seq<char>,
    prefix: Seq<char>,
    n: int,
)
    ensures
        forall|x: Seq<char>|
            #[trigger] creations(ds, order, pool, prefix, n).1.contains(x) <==> names_step(
                creations(ds, order, pool, prefix, n).0,
                x,
            ),
    decreases n,
{
    if n > 0 {
        lemma_made_are_steps(ds, order, pool, prefix, n - 1);
        let (st0, m0) = creations(ds, order, pool, prefix, n - 1);
        let (st, m) = creations(ds, order, pool, prefix, n);
        let d = ds[order[n - 1]];
        let p = under(pool, prefix, parent_name(d.name@));
        let full = under(pool, prefix, d.name@);
        let added = split_on(d.name@, '/').len() > 1 && !m0.contains(p);
        let st1 = if added { st0.push((p, seq![("mountpoint"@, "none"@)])) } else { st0 };
        assert(st == st1.push((full, prop_views(d.properties@))));
        assert forall|x: Seq<char>| #[trigger] m.contains(x) <==> names_step(st, x) by {
            if m.contains(x) {
                if x == full {
                    assert(st[st.len() - 1].0 == x);
                } else if added && x == p {
                    assert(st[st0.len() as int].0 == x);
                } else {
                    assert(m0.contains(x));
                    let i = choose|i: int| 0 <= i < st0.len() && #[trigger] st0[i].0 == x;
                    assert(st[i].0 == x);
                }
            }
            if names_step(st, x) {
                let i = choose|i: int| 0 <= i < st.len() && #[trigger] st[i].0 == x;
                if i < st0.len() {
                    assert(st0[i].0 == x);
                    assert(names_step(st0, x));
                }
            }
        }
    }
}

/// The steps for the first `m` datasets begin the steps for the first `n`.
proof fn lemma_creations_extend(
    ds: Seq<DatasetConfig>,
    order: Seq<int>,
    pool: Seq<char>,
    prefix: Seq<char>,
    m: int,
    n: int,
)
    requires
        m <= n,
    ensures
        creations(ds, order, pool, prefix, m).0.len() <= creations(ds, order, pool, prefix, n).0.len(),
        forall|i: int|
            0 <= i < creations(ds, order, pool, prefix, m).0.len() ==> #[trigger] creations(
                ds,
                order,
                pool,
                prefix,
                n,
            ).0[i] == creations(ds, order, pool, prefix, m).0[i],
    decreases n - m,
{
    if m < n {
        lemma_creations_extend(ds, order, pool, prefix, m, n - 1);
        if n > 0 {
            let st0 = creations(ds, order, pool, prefix, n - 1).0;
            let st = creations(ds, order, pool, prefix, n).0;
            assert(st0.len() <= st.len());
            assert(forall|i: int| 0 <= i < st0.len() ==> #[trigger] st[i] == st0[i]);
        }
    }
}

/// The step for `order[k]` creates its full name, after its parent when
/// the name is nested.
proof fn lemma_step_after_parent(
    ds: Seq<DatasetConfig>,
    order: Seq<int>,
    pool: Seq<char>,
    prefix: Seq<char>,
    k: int,
)
    requires
        0 <= k,
    ensures
        ({
            let st = creations(ds, order, pool, prefix, k + 1).0;
            let name = ds[order[k]].name@;
            &&& st.len() > 0
            &&& st.last().0 == under(pool, prefix, name)
            &&& split_on(name, '/').len() > 1 ==> exists|a: int|
                0 <= a < st.len() - 1 && #[trigger] st[a].0 == under(pool, prefix, parent_name(name))
        }),
{
    let (st0, m0) = creations(ds, order, pool, prefix, k);
    let st = creations(ds, order, pool, prefix, k + 1).0;
    let name = ds[order[k]].name@;
    let p = under(pool, prefix, parent_name(name));
    if split_on(name, '/').len() > 1 {
        if m0.contains(p) {
            lemma_made_are_steps(ds, order, pool, prefix, k);
            let a = choose|a: int| 0 <= a < st0.len() && #[trigger] st0[a].0 == p;
            assert(st[a].0 == p);
        } else {
            assert(st[st0.len() as int].0 == p);
        }
    }
}

/// Every configured dataset with a nested name is created after its
/// parent: the plan holds a step for `pool/prefix/<parent>` before a step
/// for `pool/prefix/<name>`. (Of a parent that no configuration names,
/// only the parent itself is made, not its own ancestors.)
pub proof fn law_parents_come_first(
    ds: Seq<DatasetConfig>,
    pool: Seq<char>,
    prefix: Seq<char>,
    plan: Seq<Step>,
)
    requires
        child_plan(ds, pool, prefix, plan),
    ensures
        forall|j: int|
            0 <= j < ds.len() && split_on(#[trigger] ds[j].name@, '/').len() > 1 ==> exists|
                a: int,
                b: int,
            |
                0 <= a < b < plan.len() && #[trigger] plan[a].0 == under(
                    pool,
                    prefix,
                    parent_name(ds[j].name@),
                ) && #[trigger] plan[b].0 == under(pool, prefix, ds[j].name@),
{
    let order = choose|order: Seq<int>|
        depth_sorted(ds, order) && plan == creations(ds, order, pool, prefix, ds.len() as int).0;
    lemma_perm_len(ds, order);
    assert forall|j: int|
        0 <= j < ds.len() && split_on(#[trigger] ds[j].name@, '/').len() > 1 implies exists|
            a: int,
            b: int,
        |
            0 <= a < b < plan.len() && #[trigger] plan[a].0 == under(
                pool,
                prefix,
                parent_name(ds[j].name@),
            ) && #[trigger] plan[b].0 == under(pool, prefix, ds[j].name@) by {
        assert(order.contains(j));
        let k = choose|k: int| 0 <= k < order.len() && order[k] == j;
        lemma_step_after_parent(ds, order, pool, prefix, k);
        lemma_creations_extend(ds, order, pool, prefix, k + 1, ds.len() as int);
        let st = creations(ds, order, pool, prefix, k + 1).0;
        let a = choose|a: int|
            0 <= a < st.len() - 1 && #[trigger] st[a].0 == under(pool, prefix, parent_name(ds[j].name@));
        let b = st.len() - 1;
        assert(plan[a] == st[a]);
        assert(plan[b] == st[b]);
    }
}


/// `context` followed by a space and `name`.
fn context_for(context: &str, name: &str) -> (r: String)
    ensures
        r@ == context@ + seq![' '] + name@,
{
    let mut m = chars_of(context);
    m.push(' ');
    extend_str(&mut m, name);
    chars_to_string(&m)
}

/// `zfs create <name>`, as a failure of it is named.
pub open spec fn create_context(name: Seq<char>) -> Seq<char> {
    "zfs create"@ + seq![' '] + name
}

/// Whether `run` is the `zfs create` of `step`.
pub open spec fn step_ran(run: Run, step: Step) -> bool {
    run.0 == "zfs"@ && run.1 == create_args(step.0, step.1) && run.2 is None
}

/// What the `zfs create` run of `step` comes to.
pub open spec fn step_result(run: Run, step: Step) -> Result<(), Seq<char>> {
    checked(run.3, create_context(step.0))
}

/// Create `full_name` with `properties`; failing, name the dataset.
pub fn create_dataset<R: CommandRunner>(
    runner: &mut RunLog<R>,
    full_name: &str,
    properties: &Vec<(String, String)>,
) -> (r: Result<(), String>)
    ensures
        extends(old(runner).runs(), final(runner).runs()),
        added(old(runner).runs(), final(runner).runs()).len() == 1,
        step_ran(added(old(runner).runs(), final(runner).runs())[0], (full_name@, prop_views(properties@))),
        unit_view(r) == step_result(added(old(runner).runs(), final(runner).runs())[0], (full_name@, prop_views(properties@))),
{
    let ghost start = runner.runs();
    let args = create_dataset_args(full_name, properties);
    let refs = arg_refs(&args);
    let o = runner.run("zfs", refs.as_slice());
    proof {
        lemma_pushed(start, runner.runs());
    }
    let ctx = context_for("zfs create", full_name);
    let output = match o {
        Ok(out) => out,
        Err(e) => {
            return Err(e);
        },
    };
    check_exit(&output, ctx.as_str())
}

/// `zfs set <property>=<value> <dataset>`, as a failure of it is named.
pub open spec fn set_context(dataset: Seq<char>, property: Seq<char>, value: Seq<char>) -> Seq<char> {
    "zfs set "@ + (property + seq!['='] + value) + seq![' '] + dataset
}

/// Set `property=value` on `dataset`.
pub fn set_property<R: CommandRunner>(
    runner: &mut RunLog<R>,
    dataset: &str,
    property: &str,
    value: &str,
) -> (r: Result<(), String>)
    ensures
        extends(old(runner).runs(), final(runner).runs()),
        single_run(added(old(runner).runs(), final(runner).runs()), "zfs"@, seq!["set"@, property@ + seq!['='] + value@, dataset@]),
        unit_view(r) == checked(added(old(runner).runs(), final(runner).runs())[0].3, set_context(dataset@, property@, value@)),
{
    let ghost start = runner.runs();
    let args = set_property_args(dataset, property, value);
    let refs = arg_refs(&args);
    let o = runner.run("zfs", refs.as_slice());
    proof {
        lemma_pushed(start, runner.runs());
    }
    assert(arg_views(args@).len() == 3);
    let mut ctx = chars_of("zfs set ");
    extend_str(&mut ctx, args[1].as_str());
    ctx.push(' ');
    extend_str(&mut ctx, dataset);
    assert(ctx@ =~= set_context(dataset@, property@, value@)) by {
        assert(arg_views(args@)[1] == args@[1]@);
    }
    let output = match o {
        Ok(out) => out,
        Err(e) => {
            return Err(e);
        },
    };
    check_exit(&output, chars_to_string(&ctx).as_str())
}

/// `zfs mount <dataset>`, as a failure of it is named.
pub open spec fn mount_context(dataset: Seq<char>) -> Seq<char> {
    "zfs mount"@ + seq![' '] + dataset
}

/// Mount `dataset`.
pub fn mount_dataset<R: CommandRunner>(runner: &mut RunLog<R>, dataset: &str) -> (r: Result<
    (),
    String,
>)
    ensures
        extends(old(runner).runs(), final(runner).runs()),
        single_run(added(old(runner).runs(), final(runner).runs()), "zfs"@, seq!["mount"@, dataset@]),
        unit_view(r) == checked(added(old(runner).runs(), final(runner).runs())[0].3, mount_context(dataset@)),
{
    let ghost start = runner.runs();
    let args = ["mount", dataset];
    assert(arg_seq(args@) =~= seq!["mount"@, dataset@]);
    let o = runner.run("zfs", &args);
    proof {
        lemma_pushed(start, runner.runs());
    }
    let ctx = context_for("zfs mount", dataset);
    let output = match o {
        Ok(out) => out,
        Err(e) => {
            return Err(e);
        },
    };
    check_exit(&output, ctx.as_str())
}

/// Unmount `dataset`, whatever comes of it: one `zfs umount`, and no
/// other run.
pub fn umount_dataset<R: CommandRunner>(runner: &mut RunLog<R>, dataset: &str)
    ensures
        extends(old(runner).runs(), final(runner).runs()),
        single_run(added(old(runner).runs(), final(runner).runs()), "zfs"@, seq!["umount"@, dataset@]),
{
    let ghost start = runner.runs();
    let args = ["umount", dataset];
    assert(arg_seq(args@) =~= seq!["umount"@, dataset@]);
    let _ = runner.run("zfs", &args);
    proof {
        lemma_pushed(start, runner.runs());
    }
}

/// Whether `zfs list` knows `name`: the listing ran and succeeded.
pub fn dataset_exists<R: CommandRunner>(runner: &mut RunLog<R>, name: &str) -> (r: bool)
    ensures
        extends(old(runner).runs(), final(runner).runs()),
        single_run(added(old(runner).runs(), final(runner).runs()), "zfs"@, seq!["list"@, "-H"@, name@]),
        r == ran_ok(added(old(runner).runs(), final(runner).runs())[0].3),
{
    let ghost start = runner.runs();
    let args = ["list", "-H", name];
    assert(arg_seq(args@) =~= seq!["list"@, "-H"@, name@]);
    let o = runner.run("zfs", &args);
    proof {
        lemma_pushed(start, runner.runs());
    }
    match o {
        Ok(output) => output.success(),
        Err(_) => false,
    }
}

/// The refusal when the boot environment's base dataset exists already.
pub open spec fn base_exists_message(base: Seq<char>) -> Seq<char> {
    "Dataset '"@ + base
        + "' already exists. Choose a different dataset prefix or use Existing Pool mode."@
}

fn base_exists_refusal(base: &str) -> (r: String)
    ensures
        r@ == base_exists_message(base@),
{
    let mut m = chars_of("Dataset '");
    extend_str(&mut m, base);
    extend_str(
        &mut m,
        "' already exists. Choose a different dataset prefix or use Existing Pool mode.",
    );
    chars_to_string(&m)
}

/// The runs of `create_base_dataset` for `base` and what they come to:
/// `zfs list -H <base>`; a base that exists is refused; otherwise its
/// creation. Nothing else runs.
pub open spec fn base_runs(
    base: Seq<char>,
    props: Seq<(Seq<char>, Seq<char>)>,
    made: Seq<Run>,
    res: Result<(), Seq<char>>,
) -> bool {
    &&& ran_as(made, 0, "zfs"@, seq!["list"@, "-H"@, base])
    &&& if ran_ok(made[0].3) {
        made.len() == 1 && res == Err::<(), Seq<char>>(base_exists_message(base))
    } else {
        &&& made.len() == 2
        &&& step_ran(made[1], (base, props))
        &&& res == step_result(made[1], (base, props))
    }
}

/// Create `pool/prefix` with the encryption properties, refusing when it
/// exists already.
pub fn create_base_dataset<R: CommandRunner>(
    runner: &mut RunLog<R>,
    pool_name: &str,
    prefix: &str,
    encryption_props: &Vec<(String, String)>,
) -> (r: Result<(), String>)
    ensures
        extends(old(runner).runs(), final(runner).runs()),
        base_runs(be_base(pool_name@, prefix@), prop_views(encryption_props@), added(old(runner).runs(), final(runner).runs()), unit_view(r)),
{
    let ghost start = runner.runs();
    let mut base = chars_of(pool_name);
    base.push('/');
    extend_str(&mut base, prefix);
    let base_name = chars_to_string(&base);
    assert(base_name@ =~= be_base(pool_name@, prefix@));
    let found = dataset_exists(runner, base_name.as_str());
    let ghost mid = runner.runs();
    if found {
        return Err(base_exists_refusal(base_name.as_str()));
    }
    let r = create_dataset(runner, base_name.as_str(), encryption_props);
    proof {
        lemma_then(start, mid, runner.runs());
        let made = added(start, runner.runs());
        assert(made[0] == added(start, mid)[0]);
        assert(made[1] == added(mid, runner.runs())[0]);
    }
    r
}

/// The `zfs create` runs for the steps of `plan`, in order, stopping at the
/// first failure: one run per step tried, every one but the last
/// succeeded, and the last deciding `res` (every step tried and created
/// for `Ok`).
pub open spec fn creation_runs(plan: Seq<Step>, made: Seq<Run>, res: Result<(), Seq<char>>) -> bool {
    &&& made.len() <= plan.len()
    &&& forall|i: int| 0 <= i < made.len() ==> step_ran(#[trigger] made[i], plan[i])
    &&& forall|i: int| 0 <= i < made.len() - 1 ==> step_result(#[trigger] made[i], plan[i]) == Ok::<(), Seq<char>>(())
    &&& match res {
        Ok(()) => made.len() == plan.len() && (made.len() == 0 || step_result(
            made.last(),
            plan[made.len() - 1],
        ) == Ok::<(), Seq<char>>(())),
        Err(m) => made.len() >= 1 && step_result(made.last(), plan[made.len() - 1]) == Err::<
            (),
            Seq<char>,
        >(m),
    }
}

/// Create the boot environment's children: the steps of
/// `child_dataset_plan`, in order, stopping at the first failure.
pub fn create_child_datasets<R: CommandRunner>(
    runner: &mut RunLog<R>,
    pool_name: &str,
    prefix: &str,
    datasets: &Vec<DatasetConfig>,
) -> (r: Result<(), String>)
    ensures
        extends(old(runner).runs(), final(runner).runs()),
        exists|plan: Seq<Step>|
            #[trigger] child_plan(datasets@, pool_name@, prefix@, plan) && creation_runs(
                plan,
                added(old(runner).runs(), final(runner).runs()),
                unit_view(r),
            ),
{
    let ghost start = runner.runs();
    let plan = child_dataset_plan(pool_name, prefix, datasets);
    let ghost pv = plan@.map_values(|s: (String, Vec<(String, String)>)| step_view(s));
    proof {
        lemma_none(start);
    }
    let mut i: usize = 0;
    while i < plan.len()
        invariant
            i <= plan.len(),
            pv == plan@.map_values(|s: (String, Vec<(String, String)>)| step_view(s)),
            child_plan(datasets@, pool_name@, prefix@, pv),
            start == old(runner).runs(),
            extends(start, runner.runs()),
            added(start, runner.runs()).len() == i,
            forall|j: int| 0 <= j < i ==> step_ran(#[trigger] added(start, runner.runs())[j], pv[j]),
            forall|j: int| 0 <= j < i ==> step_result(#[trigger] added(start, runner.runs())[j], pv[j]) == Ok::<(), Seq<char>>(()),
        decreases plan.len() - i,
    {
        assert(pv[i as int] == (plan@[i as int].0@, prop_views(plan@[i as int].1@)));
        let ghost mid = runner.runs();
        let created = create_dataset(runner, plan[i].0.as_str(), &plan[i].1);
        proof {
            lemma_then(start, mid, runner.runs());
            let before = added(start, mid);
            let now = added(start, runner.runs());
            assert(now == before + added(mid, runner.runs()));
            assert forall|j: int| 0 <= j < i implies now[j] == before[j] by {}
            assert(now[i as int] == added(mid, runner.runs())[0]);
        }
        match created {
            Ok(()) => {},
            Err(e) => {
                assert(creation_runs(pv, added(start, runner.runs()), unit_view(Err(e))));
                return Err(e);
            },
        }
        i = i + 1;
    }
    assert(creation_runs(pv, added(start, runner.runs()), unit_view(Ok(()))));
    Ok(())
}

/// `mount -a`: every dataset that can be mounted.
pub open spec fn mount_all_args() -> Seq<Seq<char>> {
    seq!["mount"@, "-a"@]
}

/// The runs of `mount_datasets_ordered` and what they come to: the root
/// dataset, which must mount; then everything under the boot environment,
/// and `zfs mount -a` only where that did not succeed. Nothing else runs.
pub open spec fn mount_runs(pool: Seq<char>, prefix: Seq<char>, made: Seq<Run>, res: Result<(), Seq<char>>) -> bool {
    let root = be_root(pool, prefix);
    &&& ran_as(made, 0, "zfs"@, seq!["mount"@, root])
    &&& match checked(made[0].3, mount_context(root)) {
        Err(m) => made.len() == 1 && res == Err::<(), Seq<char>>(m),
        Ok(()) => {
            &&& res == Ok::<(), Seq<char>>(())
            &&& ran_as(made, 1, "zfs"@, seq!["mount"@, "-R"@, be_base(pool, prefix)])
            &&& if ran_ok(made[1].3) {
                made.len() == 2
            } else {
                made.len() == 3 && ran_as(made, 2, "zfs"@, mount_all_args())
            }
        },
    }
}

/// Mount the root dataset (it is `canmount=noauto`), then everything under
/// the boot environment; where `mount -R` fails, `mount -a`.
pub fn mount_datasets_ordered<R: CommandRunner>(
    runner: &mut RunLog<R>,
    pool_name: &str,
    prefix: &str,
) -> (r: Result<(), String>)
    ensures
        extends(old(runner).runs(), final(runner).runs()),
        mount_runs(pool_name@, prefix@, added(old(runner).runs(), final(runner).runs()), unit_view(r)),
{
    let ghost start = runner.runs();
    let mut base = chars_of(pool_name);
    base.push('/');
    extend_str(&mut base, prefix);
    let mut root = slice(&base, 0, base.len());
    extend_str(&mut root, "/root");
    let root_name = chars_to_string(&root);
    assert(root_name@ =~= be_root(pool_name@, prefix@));
    let mounted_root = mount_dataset(runner, root_name.as_str());
    let ghost mid = runner.runs();
    match mounted_root {
        Ok(()) => {},
        Err(e) => {
            return Err(e);
        },
    }
    let base_name = chars_to_string(&base);
    assert(base_name@ =~= be_base(pool_name@, prefix@));
    let rargs = ["mount", "-R", base_name.as_str()];
    assert(arg_seq(rargs@) =~= seq!["mount"@, "-R"@, base_name@]);
    let recursive = runner.run("zfs", &rargs);
    let ghost mid2 = runner.runs();
    proof {
        lemma_pushed(mid, mid2);
        lemma_then(start, mid, mid2);
    }
    let mounted = match recursive {
        Ok(output) => output.success(),
        Err(_) => false,
    };
    if !mounted {
        let aargs = ["mount", "-a"];
        assert(arg_seq(aargs@) =~= mount_all_args());
        let _ = runner.run("zfs", &aargs);
        proof {
            lemma_pushed(mid2, runner.runs());
            lemma_then(start, mid2, runner.runs());
        }
    }
    Ok(())
}

} // verus!
