//! The combinator: timestamps in, one line per timestamp out, each holding every format in
//! every zone.
use crate::base60::x_seconds;
use crate::dtg::{decimal_parts, render, Dtg, Format};
use crate::error::{
    invalid_timestamp_message, unrenderable_message, DtgError, INVALID_TIMESTAMP, UNRENDERABLE,
};
use crate::text::opt_view;
use crate::zone::{texts, zone_view, Zone};
use vstd::prelude::*;
use vstd::string::StringExecFns;

verus! {

/// What an argument stands for, in decimal or in "x" text.
pub open spec fn parsed(arg: Seq<char>, as_x: bool) -> Option<(int, int)> {
    if as_x {
        match x_seconds(arg) {
            Some(secs) => Some((secs, 0)),
            None => None,
        }
    } else {
        decimal_parts(arg)
    }
}

/// Reads a timestamp in decimal, or in "x" text when `as_x` holds.
pub fn parse_timestamp(s: &str, as_x: bool) -> (r: Result<Dtg, DtgError>)
    ensures
        match parsed(s@, as_x) {
            Some((secs, nanos)) => r matches Ok(d) && d.seconds() == secs && d.nanoseconds()
                == nanos,
            None => r matches Err(e) && e.is(INVALID_TIMESTAMP, invalid_timestamp_message(s@)),
        },
{
    if as_x {
        Dtg::from_x(s)
    } else {
        Dtg::from(s)
    }
}

pub open spec fn zone_views(zones: Seq<Option<Zone>>) -> Seq<Option<Seq<char>>> {
    zones.map_values(|z: Option<Zone>| zone_view(z))
}

/// One format in each zone, in the zones' order.
pub open spec fn row(
    secs: int,
    nanos: int,
    f: Option<Format>,
    zones: Seq<Option<Seq<char>>>,
) -> Seq<Option<Seq<char>>> {
    zones.map_values(|z: Option<Seq<char>>| render(secs, nanos, f, z))
}

/// Every format in every zone: formats outer, zones inner.
pub open spec fn grid(
    secs: int,
    nanos: int,
    formats: Seq<Option<Format>>,
    zones: Seq<Option<Seq<char>>>,
) -> Seq<Option<Seq<char>>>
    decreases formats.len(),
{
    if formats.len() == 0 {
        Seq::empty()
    } else {
        grid(secs, nanos, formats.drop_last(), zones) + row(secs, nanos, formats.last(), zones)
    }
}

pub open spec fn all_rendered(cells: Seq<Option<Seq<char>>>) -> bool {
    forall|i: int| 0 <= i < cells.len() ==> (#[trigger] cells[i]) is Some
}

pub open spec fn unwrap_all(cells: Seq<Option<Seq<char>>>) -> Seq<Seq<char>> {
    cells.map_values(|c: Option<Seq<char>>| c.unwrap())
}

/// The parts with `sep` between each two.
pub open spec fn join(parts: Seq<Seq<char>>, sep: Seq<char>) -> Seq<char>
    decreases parts.len(),
{
    if parts.len() == 0 {
        Seq::empty()
    } else if parts.len() == 1 {
        parts[0]
    } else {
        join(parts.drop_last(), sep) + sep + parts.last()
    }
}

/// The output line of an instant: every rendering joined by `sep`, or `None` where one of them
/// cannot be made.
pub open spec fn line(
    secs: int,
    nanos: int,
    formats: Seq<Option<Format>>,
    zones: Seq<Option<Seq<char>>>,
    sep: Seq<char>,
) -> Option<Seq<char>> {
    let cells = grid(secs, nanos, formats, zones);
    if all_rendered(cells) {
        Some(join(unwrap_all(cells), sep))
    } else {
        None
    }
}

proof fn lemma_grid_prefix(
    secs: int,
    nanos: int,
    formats: Seq<Option<Format>>,
    zones: Seq<Option<Seq<char>>>,
    k: int,
)
    requires
        0 <= k <= formats.len(),
    ensures
        grid(secs, nanos, formats.take(k), zones).len() <= grid(secs, nanos, formats, zones).len(),
        grid(secs, nanos, formats, zones).take(grid(secs, nanos, formats.take(k), zones).len() as int)
            == grid(secs, nanos, formats.take(k), zones),
    decreases formats.len() - k,
{
    let whole = grid(secs, nanos, formats, zones);
    if k == formats.len() {
        assert(formats.take(k) =~= formats);
        assert(whole.take(whole.len() as int) =~= whole);
    } else {
        lemma_grid_prefix(secs, nanos, formats, zones, k + 1);
        let next = formats.take(k + 1);
        assert(next.drop_last() =~= formats.take(k));
        let small = grid(secs, nanos, formats.take(k), zones);
        let mid = grid(secs, nanos, next, zones);
        assert(mid.take(small.len() as int) =~= small);
        assert(whole.take(small.len() as int) =~= mid.take(small.len() as int));
    }
}

proof fn lemma_join_push(parts: Seq<Seq<char>>, sep: Seq<char>, x: Seq<char>)
    ensures
        join(parts.push(x), sep) == if parts.len() == 0 {
            x
        } else {
            join(parts, sep) + sep + x
        },
{
    assert(parts.push(x).drop_last() =~= parts);
}

/// One line: every format in every zone, joined by the separator.
fn render_line(d: &Dtg, formats: &Vec<Option<Format>>, zones: &Vec<Option<Zone>>, sep: &str) -> (r:
    Option<String>)
    ensures
        opt_view(r) == line(d.seconds(), d.nanoseconds(), formats@, zone_views(zones@), sep@),
{
    let ghost secs = d.seconds();
    let ghost nanos = d.nanoseconds();
    let ghost zs = zone_views(zones@);
    let ghost fs = formats@;
    let mut out = String::new();
    let mut first = true;
    let mut i: usize = 0;
    while i < formats.len()
        invariant
            secs == d.seconds(),
            nanos == d.nanoseconds(),
            zs == zone_views(zones@),
            fs == formats@,
            i <= formats.len(),
            all_rendered(grid(secs, nanos, fs.take(i as int), zs)),
            out@ == join(unwrap_all(grid(secs, nanos, fs.take(i as int), zs)), sep@),
            first == (grid(secs, nanos, fs.take(i as int), zs).len() == 0),
        decreases formats.len() - i,
    {
        let ghost before = grid(secs, nanos, fs.take(i as int), zs);
        proof {
            assert(fs.take(i + 1).drop_last() =~= fs.take(i as int));
            assert(fs.take(i + 1).last() == fs[i as int]);
        }
        let mut j: usize = 0;
        while j < zones.len()
            invariant
                secs == d.seconds(),
                nanos == d.nanoseconds(),
                zs == zone_views(zones@),
                fs == formats@,
                i < formats.len(),
                j <= zones.len(),
                before == grid(secs, nanos, fs.take(i as int), zs),
                grid(secs, nanos, fs.take(i + 1), zs) == before + row(secs, nanos, fs[i as int], zs),
                all_rendered(before + row(secs, nanos, fs[i as int], zs.take(j as int))),
                out@ == join(
                    unwrap_all(before + row(secs, nanos, fs[i as int], zs.take(j as int))),
                    sep@,
                ),
                first == ((before + row(secs, nanos, fs[i as int], zs.take(j as int))).len() == 0),
            decreases zones.len() - j,
        {
            let ghost cells = before + row(secs, nanos, fs[i as int], zs.take(j as int));
            let ghost more = before + row(secs, nanos, fs[i as int], zs.take(j + 1));
            proof {
                assert(more =~= cells.push(render(secs, nanos, fs[i as int], zs[j as int])));
            }
            let cell = if d.can_format(&formats[i], &zones[j]) {
                d.format(&formats[i], &zones[j])
            } else {
                None
            };
            assert(opt_view(cell) == render(secs, nanos, fs[i as int], zs[j as int]));
            match cell {
                Some(t) => {
                    proof {
                        assert(unwrap_all(more) =~= unwrap_all(cells).push(t@));
                        lemma_join_push(unwrap_all(cells), sep@, t@);
                    }
                    if !first {
                        out.append(sep);
                    }
                    out.append(t.as_str());
                    first = false;
                },
                None => {
                    proof {
                        lemma_grid_prefix(secs, nanos, fs, zs, i + 1);
                        let whole = grid(secs, nanos, fs, zs);
                        let k = cells.len() as int;
                        assert(more[k] is None);
                        assert(whole.take(grid(secs, nanos, fs.take(i + 1), zs).len() as int)[k]
                            == whole[k]);
                        assert(fs.take(fs.len() as int) =~= fs);
                    }
                    return None;
                },
            }
            j = j + 1;
        }
        proof {
            assert(zs.take(zones.len() as int) =~= zs);
        }
        i = i + 1;
    }
    proof {
        assert(fs.take(formats.len() as int) =~= fs);
    }
    Some(out)
}

/// The instants of the arguments (or the given current one, where there are none) when every
/// argument reads as a timestamp.
pub open spec fn instants(args: Seq<Seq<char>>, as_x: bool, now: (int, int)) -> Seq<(int, int)> {
    if args.len() == 0 {
        seq![now]
    } else {
        args.map_values(|a: Seq<char>| parsed(a, as_x).unwrap())
    }
}

/// The argument that names an instant in errors: `now` for the current instant.
pub open spec fn raw_of(args: Seq<Seq<char>>, i: int) -> Seq<char> {
    if args.len() == 0 {
        "now"@
    } else {
        args[i]
    }
}

/// What a request gives: the first argument that is no timestamp fails it; else the first
/// instant whose line cannot be made; else one line per instant, in order.
pub open spec fn run_result(
    args: Seq<Seq<char>>,
    formats: Seq<Option<Format>>,
    zones: Seq<Option<Seq<char>>>,
    sep: Seq<char>,
    as_x: bool,
    now: (int, int),
    r: Result<Vec<String>, DtgError>,
) -> bool {
    let bad = exists|k: int| 0 <= k < args.len() && #[trigger] parsed(args[k], as_x) is None;
    let ds = instants(args, as_x, now);
    match r {
        Err(e) => if bad {
            exists|k: int|
                0 <= k < args.len() && #[trigger] parsed(args[k], as_x) is None && (forall|j: int|
                    0 <= j < k ==> (#[trigger] parsed(args[j], as_x)) is Some) && e.is(
                    INVALID_TIMESTAMP,
                    invalid_timestamp_message(args[k]),
                )
        } else {
            exists|k: int|
                0 <= k < ds.len() && (#[trigger] line(ds[k].0, ds[k].1, formats, zones, sep))
                    is None && (forall|j: int|
                    0 <= j < k ==> (#[trigger] line(ds[j].0, ds[j].1, formats, zones, sep))
                        is Some) && e.is(UNRENDERABLE, unrenderable_message(raw_of(args, k)))
        },
        Ok(lines) => !bad && lines.len() == ds.len() && forall|k: int|
            0 <= k < ds.len() ==> Some(#[trigger] lines@[k]@) == line(
                ds[k].0,
                ds[k].1,
                formats,
                zones,
                sep,
            ),
    }
}

/// Runs a request with the given current instant, used where there are no arguments.
pub fn run_at(
    args: &Vec<String>,
    formats: &Vec<Option<Format>>,
    zones: &Vec<Option<Zone>>,
    separator: &str,
    from_x: bool,
    now: &Dtg,
) -> (r: Result<Vec<String>, DtgError>)
    ensures
        run_result(
            texts(args@),
            formats@,
            zone_views(zones@),
            separator@,
            from_x,
            (now.seconds(), now.nanoseconds()),
            r,
        ),
{
    let ghost a = texts(args@);
    let ghost cur = (now.seconds(), now.nanoseconds());
    let mut dtgs: Vec<Dtg> = Vec::new();
    let mut i: usize = 0;
    while i < args.len()
        invariant
            a == texts(args@),
            i <= args.len(),
            dtgs.len() == i,
            forall|j: int| 0 <= j < i ==> (#[trigger] parsed(a[j], from_x)) is Some,
            forall|j: int|
                0 <= j < i ==> parsed(a[j], from_x) == Some(
                    ((#[trigger] dtgs@[j]).seconds(), dtgs@[j].nanoseconds()),
                ),
        decreases args.len() - i,
    {
        assert(a[i as int] == args@[i as int]@);
        match parse_timestamp(args[i].as_str(), from_x) {
            Ok(d) => {
                dtgs.push(d);
            },
            Err(e) => {
                proof {
                    assert(0 <= i < a.len() && parsed(a[i as int], from_x) is None);
                }
                return Err(e);
            },
        }
        i = i + 1;
    }
    let ghost ds = instants(a, from_x, cur);
    assert(forall|k: int| 0 <= k < a.len() ==> (#[trigger] parsed(a[k], from_x)) is Some);
    let mut lines: Vec<String> = Vec::new();
    let count = if args.len() == 0 {
        1
    } else {
        args.len()
    };
    assert(ds.len() == count);
    let mut k: usize = 0;
    while k < count
        invariant
            a == texts(args@),
            ds == instants(a, from_x, cur),
            cur == (now.seconds(), now.nanoseconds()),
            count == ds.len(),
            args.len() > 0 ==> dtgs.len() == args.len(),
            forall|j: int|
                0 <= j < args.len() ==> parsed(a[j], from_x) == Some(
                    ((#[trigger] dtgs@[j]).seconds(), dtgs@[j].nanoseconds()),
                ),
            forall|j: int| 0 <= j < a.len() ==> (#[trigger] parsed(a[j], from_x)) is Some,
            k <= count,
            lines.len() == k,
            forall|j: int|
                0 <= j < k ==> Some(#[trigger] lines@[j]@) == line(
                    ds[j].0,
                    ds[j].1,
                    formats@,
                    zone_views(zones@),
                    separator@,
                ),
        decreases count - k,
    {
        let d = if args.len() == 0 {
            now
        } else {
            &dtgs[k]
        };
        assert((d.seconds(), d.nanoseconds()) == ds[k as int]);
        match render_line(d, formats, zones, separator) {
            Some(t) => {
                lines.push(t);
            },
            None => {
                let raw = if args.len() == 0 {
                    "now"
                } else {
                    args[k].as_str()
                };
                let e = DtgError::unrenderable(raw);
                proof {
                    assert(raw@ == raw_of(a, k as int));
                    let fz = zone_views(zones@);
                    assert(line(ds[k as int].0, ds[k as int].1, formats@, fz, separator@) is None);
                    assert forall|j: int| 0 <= j < k implies (#[trigger] line(
                        ds[j].0,
                        ds[j].1,
                        formats@,
                        fz,
                        separator@,
                    )) is Some by {
                        assert(Some(lines@[j]@) == line(ds[j].0, ds[j].1, formats@, fz, separator@));
                    }
                    assert(!(exists|j: int| 0 <= j < a.len() && #[trigger] parsed(a[j], from_x) is None));
                }
                return Err(e);
            },
        }
        k = k + 1;
    }
    Ok(lines)
}

/// Runs a request: reads every argument (the system clock, once, where there are none), then
/// writes one line per instant, each format in each zone, joined by the separator.
pub fn run(
    args: &Vec<String>,
    formats: &Vec<Option<Format>>,
    zones: &Vec<Option<Zone>>,
    separator: &str,
    from_x: bool,
) -> (r: Result<Vec<String>, DtgError>)
    ensures
        args.len() > 0 ==> run_result(
            texts(args@),
            formats@,
            zone_views(zones@),
            separator@,
            from_x,
            (0, 0),
            r,
        ),
        args.len() == 0 ==> (exists|now: (int, int)|
            run_result(texts(args@), formats@, zone_views(zones@), separator@, from_x, now, r))
            || (r matches Err(e) && e.is(INVALID_TIMESTAMP, invalid_timestamp_message("now"@))),
        args.len() == 0 ==> (r matches Ok(lines) ==> lines.len() == 1),
{
    if args.len() == 0 {
        match Dtg::now() {
            Some(now) => run_at(args, formats, zones, separator, from_x, &now),
            None => Err(DtgError::invalid_timestamp("now")),
        }
    } else {
        let epoch = Dtg::from_clock(true, 0, 0).unwrap();
        let r = run_at(args, formats, zones, separator, from_x, &epoch);
        proof {
            assert(instants(texts(args@), from_x, (epoch.seconds(), epoch.nanoseconds()))
                == instants(texts(args@), from_x, (0, 0)));
        }
        r
    }
}

/// Lines keep the format-major order: two formats in two zones give, for one instant, the
/// first format in each zone and then the second format in each zone.
pub proof fn lemma_format_major_order(
    secs: int,
    nanos: int,
    f1: Option<Format>,
    f2: Option<Format>,
    z1: Option<Seq<char>>,
    z2: Option<Seq<char>>,
    sep: Seq<char>,
)
    requires
        render(secs, nanos, f1, z1) is Some,
        render(secs, nanos, f1, z2) is Some,
        render(secs, nanos, f2, z1) is Some,
        render(secs, nanos, f2, z2) is Some,
    ensures
        line(secs, nanos, seq![f1, f2], seq![z1, z2], sep) == Some(
            render(secs, nanos, f1, z1).unwrap() + sep + render(secs, nanos, f1, z2).unwrap() + sep
                + render(secs, nanos, f2, z1).unwrap() + sep + render(secs, nanos, f2, z2).unwrap(),
        ),
{
    let fs = seq![f1, f2];
    let zs = seq![z1, z2];
    assert(fs.drop_last() =~= seq![f1]);
    assert(seq![f1].drop_last() =~= Seq::<Option<Format>>::empty());
    let g = grid(secs, nanos, fs, zs);
    reveal_with_fuel(grid, 3);
    assert(row(secs, nanos, f1, zs) =~= seq![render(secs, nanos, f1, z1), render(secs, nanos, f1, z2)]);
    assert(row(secs, nanos, f2, zs) =~= seq![render(secs, nanos, f2, z1), render(secs, nanos, f2, z2)]);
    assert(grid(secs, nanos, seq![f1], zs) =~= row(secs, nanos, f1, zs));
    assert(g =~= seq![
        render(secs, nanos, f1, z1),
        render(secs, nanos, f1, z2),
        render(secs, nanos, f2, z1),
        render(secs, nanos, f2, z2),
    ]);
    let parts = unwrap_all(g);
    assert(parts.drop_last().drop_last().drop_last() =~= seq![parts[0]]);
    assert(parts.drop_last().drop_last() =~= seq![parts[0], parts[1]]);
    assert(parts.drop_last() =~= seq![parts[0], parts[1], parts[2]]);
    reveal_with_fuel(join, 5);
}

/// A request of one timestamp, two formats and two zones whose four renderings all succeed
/// gives exactly one line: the first format in each zone, then the second format in each zone.
pub proof fn lemma_run_format_major(
    arg: Seq<char>,
    as_x: bool,
    f1: Option<Format>,
    f2: Option<Format>,
    z1: Option<Seq<char>>,
    z2: Option<Seq<char>>,
    sep: Seq<char>,
    now: (int, int),
    r: Result<Vec<String>, DtgError>,
)
    requires
        parsed(arg, as_x) is Some,
        render(parsed(arg, as_x).unwrap().0, parsed(arg, as_x).unwrap().1, f1, z1) is Some,
        render(parsed(arg, as_x).unwrap().0, parsed(arg, as_x).unwrap().1, f1, z2) is Some,
        render(parsed(arg, as_x).unwrap().0, parsed(arg, as_x).unwrap().1, f2, z1) is Some,
        render(parsed(arg, as_x).unwrap().0, parsed(arg, as_x).unwrap().1, f2, z2) is Some,
        run_result(seq![arg], seq![f1, f2], seq![z1, z2], sep, as_x, now, r),
    ensures
        r matches Ok(lines) && lines.len() == 1 && lines@[0]@ == {
            let (secs, nanos) = parsed(arg, as_x).unwrap();
            render(secs, nanos, f1, z1).unwrap() + sep + render(secs, nanos, f1, z2).unwrap() + sep
                + render(secs, nanos, f2, z1).unwrap() + sep + render(secs, nanos, f2, z2).unwrap()
        },
{
    let (secs, nanos) = parsed(arg, as_x).unwrap();
    let args = seq![arg];
    let fs = seq![f1, f2];
    let zs = seq![z1, z2];
    lemma_format_major_order(secs, nanos, f1, f2, z1, z2, sep);
    let ds = instants(args, as_x, now);
    assert(ds[0] == (secs, nanos));
    assert(!(exists|k: int| 0 <= k < args.len() && #[trigger] parsed(args[k], as_x) is None));
    if let Err(e) = r {
        let k = choose|k: int|
            0 <= k < ds.len() && (#[trigger] line(ds[k].0, ds[k].1, fs, zs, sep)) is None
                && (forall|j: int| 0 <= j < k ==> (#[trigger] line(ds[j].0, ds[j].1, fs, zs, sep)) is Some)
                && e.is(UNRENDERABLE, unrenderable_message(raw_of(args, k)));
        assert(k == 0);
    } else {
        let lines = r.unwrap();
        assert(Some(lines@[0]@) == line(ds[0].0, ds[0].1, fs, zs, sep));
    }
}

/// A request without timestamps whose renderings of the current instant all succeed gives
/// exactly one line, made from that one instant.
pub proof fn lemma_run_without_arguments(
    formats: Seq<Option<Format>>,
    zones: Seq<Option<Seq<char>>>,
    sep: Seq<char>,
    as_x: bool,
    now: (int, int),
    r: Result<Vec<String>, DtgError>,
)
    requires
        line(now.0, now.1, formats, zones, sep) is Some,
        run_result(Seq::empty(), formats, zones, sep, as_x, now, r),
    ensures
        r matches Ok(lines) && lines.len() == 1 && Some(lines@[0]@) == line(
            now.0,
            now.1,
            formats,
            zones,
            sep,
        ),
{
    let ds = instants(Seq::<Seq<char>>::empty(), as_x, now);
    assert(ds[0] == now);
    if let Err(e) = r {
        let k = choose|k: int|
            0 <= k < ds.len() && (#[trigger] line(ds[k].0, ds[k].1, formats, zones, sep)) is None
                && (forall|j: int|
                0 <= j < k ==> (#[trigger] line(ds[j].0, ds[j].1, formats, zones, sep)) is Some)
                && e.is(UNRENDERABLE, unrenderable_message(raw_of(Seq::empty(), k)));
        assert(k == 0);
    }
}

} // verus!
