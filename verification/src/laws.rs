//! Properties of the listing that hold for every input.
use vstd::prelude::*;
use crate::cgroup::{dir_answers, dir_container_id, first_answer, resolve, CgroupDir};
use crate::cli::{command_of, is_help_flag, is_no_trunc_flag, is_running_flag, is_version_flag, Args, Command};
use crate::cgroup::cgroup_map;
use crate::ansi::colored;
use crate::format::{
    as_float, colorize, dedup, digit_run, float_spacing, health, lemma_digit_run_bound,
    port_color_code, port_key, ports_cell, reset_code, scaled_size, short_id, strip_port_colors,
    unit_exponent, unit_size, PortMapping,
};
use crate::text::{
    ascii_lower_char, ascii_lowercase, decimal, digit_char, digits_value, has_prefix, has_suffix,
    is_digit, is_white, lemma_line_end, line_end, lines, parse_u64, strip_cr, trim, trim_end,
    trim_start,
};
use crate::cgroup::{cpu_usage_usec, first_line_after};
use crate::cli::{help_text, option_line};
use crate::format::is_running_state;
use crate::listing::{row_cells, running_ids_of, ContainerRow, ContainerStats};

verus! {

proof fn lemma_first_answer_found(dirs: Seq<CgroupDir>, id: Seq<char>, exact: bool)
    ensures
        first_answer(dirs, id, exact) matches Some(k) ==> 0 <= k < dirs.len() && dir_answers(
            dirs[k],
            id,
            exact,
        ),
        (exists|j: int| 0 <= j < dirs.len() && dir_answers(#[trigger] dirs[j], id, exact))
            ==> first_answer(dirs, id, exact) is Some,
    decreases dirs.len(),
{
    if dirs.len() > 0 {
        lemma_first_answer_found(dirs.drop_first(), id, exact);
        if !dir_answers(dirs[0], id, exact) {
            if exists|j: int| 0 <= j < dirs.len() && dir_answers(#[trigger] dirs[j], id, exact) {
                let j = choose|j: int| 0 <= j < dirs.len() && dir_answers(#[trigger] dirs[j], id, exact);
                assert(dir_answers(dirs.drop_first()[j - 1], id, exact));
            }
        }
    }
}

/// A container id only ever resolves to a directory whose id begins with
/// it: prefix matching never picks a directory of another container.
pub proof fn lemma_resolved_dir_begins_with_id(dirs: Seq<CgroupDir>, id: Seq<char>, entry: usize)
    requires
        resolve(dirs, id) == Some(entry),
    ensures
        exists|k: int|
            0 <= k < dirs.len() && (#[trigger] dirs[k]).entry == entry && has_prefix(dirs[k].id@, id),
{
    lemma_first_answer_found(dirs, id, true);
    lemma_first_answer_found(dirs, id, false);
    match first_answer(dirs, id, true) {
        Some(k) => {
            assert(dirs[k].id@.take(id.len() as int) =~= id);
            assert(has_prefix(dirs[k].id@, id));
        },
        None => {
            let k = first_answer(dirs, id, false)->0;
            assert(has_prefix(dirs[k].id@, id));
        },
    }
}

/// When a directory carries exactly the requested id, the id resolves to
/// a directory with exactly that id, whatever other ids begin with it.
pub proof fn lemma_exact_id_wins(dirs: Seq<CgroupDir>, id: Seq<char>)
    requires
        exists|j: int| 0 <= j < dirs.len() && (#[trigger] dirs[j]).id@ == id,
    ensures
        exists|k: int|
            0 <= k < dirs.len() && (#[trigger] dirs[k]).id@ == id && resolve(dirs, id) == Some(
                dirs[k].entry,
            ),
{
    let j = choose|j: int| 0 <= j < dirs.len() && (#[trigger] dirs[j]).id@ == id;
    assert(dir_answers(dirs[j], id, true));
    lemma_first_answer_found(dirs, id, true);
    let k = first_answer(dirs, id, true)->0;
    assert(dirs[k].id@ == id);
}

/// The directory name of a container's cgroup gives back the container id.
pub proof fn lemma_dir_name_round_trip(id: Seq<char>)
    ensures
        dir_container_id("docker-"@ + id + ".scope"@) == Some(id),
{
    reveal_strlit("docker-");
    reveal_strlit(".scope");
    let name = "docker-"@ + id + ".scope"@;
    assert(name.take(7) =~= "docker-"@);
    assert(name.skip(7) =~= id + ".scope"@);
    let rest = name.skip(7);
    assert(rest.skip(rest.len() - 6) =~= ".scope"@);
    assert(has_suffix(rest, ".scope"@));
    assert(rest.take(rest.len() - 6) =~= id);
}

/// Coloring the ports leaves a text without digits as it is.
pub proof fn lemma_colorize_without_digits(s: Seq<char>)
    requires
        forall|i: int| 0 <= i < s.len() ==> !is_digit(#[trigger] s[i]),
    ensures
        colorize(s) == s,
    decreases s.len(),
{
    if s.len() > 0 {
        assert(!is_digit(s[0]));
        let t = s.drop_first();
        assert(forall|i: int| 0 <= i < t.len() ==> t[i] == s[i + 1]);
        lemma_colorize_without_digits(t);
        assert(seq![s[0]] + t =~= s);
    }
}

/// A truncated id is the beginning of the full id, at most twelve long.
pub proof fn lemma_short_id_is_prefix(id: Seq<char>)
    ensures
        short_id(id).len() <= 12,
        has_prefix(id, short_id(id)),
        id.len() <= 12 ==> short_id(id) == id,
{
    assert(id.take(id.len() as int) =~= id);
    assert(id.len() > 12 ==> short_id(id).take(12) =~= short_id(id));
}

/// A container is never reported both healthy and unhealthy.
pub proof fn lemma_health_exclusive(lowered: Seq<char>)
    ensures
        !(health(lowered).1 && health(lowered).2),
{
}

/// Below 2^53 bytes the count converts to a float exactly.
pub proof fn lemma_float_exact_below_2_53(n: nat)
    requires
        n < 0x20_0000_0000_0000,
    ensures
        as_float(n) == n,
{
    assert(float_spacing(n) == 1);
}

/// A nonzero size shows as at least 1 of its unit, and below T as at most
/// 1024 of it.
pub proof fn lemma_scaled_size_range(bytes: nat)
    requires
        bytes > 0,
        bytes <= u64::MAX,
    ensures
        scaled_size(bytes) >= 1,
        unit_exponent(bytes) < 4 ==> scaled_size(bytes) <= 1024,
{
    let e = unit_exponent(bytes);
    if bytes < 0x20_0000_0000_0000 {
        lemma_float_exact_below_2_53(bytes);
    } else {
        lemma_float_at_least(bytes);
    }
    let x = as_float(bytes);
    let u = unit_size(e);
    assert(x >= u);
    assert(u >= 1);
    assert((x + u / 2) / u >= 1) by (nonlinear_arith)
        requires
            x >= u,
            u >= 1,
    ;
    if e < 4 {
        assert(x < 1024 * u);
        assert((x + u / 2) / u <= 1024) by (nonlinear_arith)
            requires
                x < 1024 * u,
                u >= 1,
        ;
    }
}

proof fn lemma_spacing_bound(n: nat)
    ensures
        n >= 0x20_0000_0000_0000 ==> float_spacing(n) * 0x10_0000_0000_0000 <= n,
        float_spacing(n) >= 1,
    decreases n,
{
    if n >= 0x20_0000_0000_0000 {
        lemma_spacing_bound(n / 2);
    }
}

proof fn lemma_float_at_least(n: nat)
    requires
        n >= 0x20_0000_0000_0000,
    ensures
        as_float(n) >= 0x10_0000_0000_0000,
{
    lemma_spacing_bound(n);
    let sp = float_spacing(n);
    let q = n / sp;
    assert(q * sp >= n - sp + 1) by (nonlinear_arith)
        requires
            sp >= 1,
            q == n / sp,
    ;
    assert(q * sp >= 0x10_0000_0000_0000) by (nonlinear_arith)
        requires
            q * sp >= n - sp + 1,
            sp * 0x10_0000_0000_0000 <= n,
            n >= 0x20_0000_0000_0000,
            sp >= 1,
    ;
    assert((q + 1) * sp >= q * sp) by (nonlinear_arith)
        requires
            sp >= 1,
    ;
}

proof fn lemma_dedup_contains(s: Seq<Seq<char>>, x: Seq<char>)
    ensures
        dedup(s).contains(x) <==> s.contains(x),
    decreases s.len(),
{
    if s.len() > 0 {
        lemma_dedup_contains(s.drop_last(), x);
        let d = dedup(s.drop_last());
        if s.contains(x) {
            let i = choose|i: int| 0 <= i < s.len() && s[i] == x;
            if i < s.len() - 1 {
                assert(s.drop_last()[i] == x);
            }
        }
        if d.contains(s.last()) {
        } else {
            assert(d.push(s.last())[d.len() as int] == s.last());
            if d.push(s.last()).contains(x) {
                let i = choose|i: int| 0 <= i < d.len() + 1 && d.push(s.last())[i] == x;
                if i < d.len() {
                    assert(d[i] == x);
                }
            }
            if d.contains(x) {
                let i = choose|i: int| 0 <= i < d.len() && d[i] == x;
                assert(d.push(s.last())[i] == x);
            }
        }
        if s.drop_last().contains(x) {
            let i = choose|i: int| 0 <= i < s.drop_last().len() && s.drop_last()[i] == x;
            assert(s[i] == x);
        }
    }
}

/// The ports cell lists each mapping once: the deduplicated mappings are
/// pairwise different and are exactly the mappings of the container.
pub proof fn lemma_dedup_lists_each_once(s: Seq<Seq<char>>)
    ensures
        forall|i: int, j: int|
            0 <= i < j < dedup(s).len() ==> #[trigger] dedup(s)[i] != #[trigger] dedup(s)[j],
        forall|x: Seq<char>| #[trigger] dedup(s).contains(x) <==> s.contains(x),
    decreases s.len(),
{
    assert forall|x: Seq<char>| #[trigger] dedup(s).contains(x) <==> s.contains(x) by {
        lemma_dedup_contains(s, x);
    }
    if s.len() > 0 {
        lemma_dedup_lists_each_once(s.drop_last());
        let d = dedup(s.drop_last());
        if !d.contains(s.last()) {
            let e = d.push(s.last());
            assert forall|i: int, j: int| 0 <= i < j < e.len() implies #[trigger] e[i] != #[trigger] e[j] by {
                if j == d.len() {
                    assert(e[i] == d[i]);
                    if e[i] == e[j] {
                        assert(d.contains(s.last()));
                    }
                } else {
                    assert(e[i] == d[i] && e[j] == d[j]);
                }
            }
        }
    }
}

/// Without a version or help flag the listing runs, with each listing flag
/// on exactly when one of the arguments asks for it.
pub proof fn lemma_listing_flags(args: Seq<Seq<char>>)
    requires
        forall|i: int| 0 <= i < args.len() ==> !is_version_flag(#[trigger] args[i]) && !is_help_flag(args[i]),
    ensures
        command_of(args) == Command::Run(
            Args {
                running: exists|i: int| 0 <= i < args.len() && is_running_flag(#[trigger] args[i]),
                no_trunc: exists|i: int| 0 <= i < args.len() && is_no_trunc_flag(#[trigger] args[i]),
            },
        ),
    decreases args.len(),
{
    if args.len() > 0 {
        let t = args.drop_first();
        assert(forall|i: int| 0 <= i < t.len() ==> t[i] == args[i + 1]);
        lemma_listing_flags(t);
        assert(!is_version_flag(args[0]) && !is_help_flag(args[0]));
        let r1 = exists|i: int| 0 <= i < args.len() && is_running_flag(#[trigger] args[i]);
        let r2 = is_running_flag(args[0]) || exists|i: int| 0 <= i < t.len() && is_running_flag(#[trigger] t[i]);
        if r1 {
            let i = choose|i: int| 0 <= i < args.len() && is_running_flag(#[trigger] args[i]);
            if i > 0 {
                assert(is_running_flag(t[i - 1]));
            }
        }
        if r2 && !is_running_flag(args[0]) {
            let i = choose|i: int| 0 <= i < t.len() && is_running_flag(#[trigger] t[i]);
            assert(is_running_flag(args[i + 1]));
        }
        let n1 = exists|i: int| 0 <= i < args.len() && is_no_trunc_flag(#[trigger] args[i]);
        let n2 = is_no_trunc_flag(args[0]) || exists|i: int| 0 <= i < t.len() && is_no_trunc_flag(#[trigger] t[i]);
        if n1 {
            let i = choose|i: int| 0 <= i < args.len() && is_no_trunc_flag(#[trigger] args[i]);
            if i > 0 {
                assert(is_no_trunc_flag(t[i - 1]));
            }
        }
        if n2 && !is_no_trunc_flag(args[0]) {
            let i = choose|i: int| 0 <= i < t.len() && is_no_trunc_flag(#[trigger] t[i]);
            assert(is_no_trunc_flag(args[i + 1]));
        }
    }
}


/// Mappings already listed change nothing when they come again: the ports
/// cell of `ps` followed by `more` is that of `ps` when each mapping of
/// `more` is written like one of `ps`.
pub proof fn lemma_seen_ports_change_nothing(
    ps: Vec<PortMapping>,
    more: Vec<PortMapping>,
    all: Vec<PortMapping>,
)
    requires
        all@ == ps@ + more@,
        ps@.len() > 0,
        forall|i: int|
            0 <= i < more@.len() ==> ps@.map_values(|p: PortMapping| port_key(p)).contains(
                port_key(#[trigger] more@[i]),
            ),
    ensures
        ports_cell(Some(all)) == ports_cell(Some(ps)),
{
    let kp = ps@.map_values(|p: PortMapping| port_key(p));
    let km = more@.map_values(|p: PortMapping| port_key(p));
    let ka = all@.map_values(|p: PortMapping| port_key(p));
    assert(ka =~= kp + km);
    assert forall|x: Seq<char>| km.contains(x) implies kp.contains(x) by {
        let i = choose|i: int| 0 <= i < km.len() && km[i] == x;
        assert(km[i] == port_key(more@[i]));
    }
    lemma_dedup_seen(kp, km);
    assert(ka.len() > 0);
}

proof fn lemma_dedup_seen(kp: Seq<Seq<char>>, km: Seq<Seq<char>>)
    requires
        forall|x: Seq<char>| km.contains(x) ==> kp.contains(x),
    ensures
        dedup(kp + km) == dedup(kp),
    decreases km.len(),
{
    if km.len() == 0 {
        assert(kp + km =~= kp);
    } else {
        let s = kp + km.drop_last();
        let t = kp + km;
        assert(t.drop_last() =~= s);
        assert(t.last() == km.last());
        assert(km.contains(km.last()));
        assert forall|x: Seq<char>| km.drop_last().contains(x) implies kp.contains(x) by {
            let i = choose|i: int| 0 <= i < km.drop_last().len() && km.drop_last()[i] == x;
            assert(km[i] == x);
        }
        lemma_dedup_seen(kp, km.drop_last());
        lemma_dedup_contains(s, km.last());
        let w = choose|w: int| 0 <= w < kp.len() && kp[w] == km.last();
        assert(s[w] == km.last());
    }
}

proof fn lemma_strip_passes(u: Seq<char>, v: Seq<char>)
    requires
        forall|i: int| 0 <= i < u.len() ==> #[trigger] u[i] != '\x1b',
    ensures
        strip_port_colors(u + v) == u + strip_port_colors(v),
    decreases u.len(),
{
    reveal_strlit("\x1b[38;2;");
    reveal_strlit("\x1b[0m");
    if u.len() > 0 {
        let t = u + v;
        assert(port_color_code()[0] == '\x1b');
        assert(reset_code()[0] == '\x1b');
        assert(t[0] == u[0]);
        if has_prefix(t, port_color_code()) {
            assert(t.take(port_color_code().len() as int)[0] == t[0]);
        }
        if has_prefix(t, reset_code()) {
            assert(t.take(reset_code().len() as int)[0] == t[0]);
        }
        let u2 = u.drop_first();
        assert(forall|i: int| 0 <= i < u2.len() ==> u2[i] == u[i + 1]);
        lemma_strip_passes(u2, v);
        assert(t.drop_first() =~= u2 + v);
        assert(seq![u[0]] + u2 =~= u);
    }
}

proof fn lemma_strip_codes(run: Seq<char>, v: Seq<char>)
    requires
        forall|i: int| 0 <= i < run.len() ==> is_digit(#[trigger] run[i]),
    ensures
        strip_port_colors(colored(run, 249, 226, 175) + v) == run + strip_port_colors(v),
{
    reveal_strlit("\x1b[38;2;");
    reveal_strlit("\x1b[0m");
    reveal_strlit(";");
    reveal_strlit("m");
    let code = port_color_code();
    let r = reset_code();
    let t = colored(run, 249, 226, 175) + v;
    assert(t =~= code + (run + (r + v)));
    assert(code.len() > 0);
    assert((code + (run + (r + v))).take(code.len() as int) =~= code);
    assert((code + (run + (r + v))).skip(code.len() as int) =~= run + (r + v));
    lemma_strip_passes(run, r + v);
    assert(r.len() == 4);
    assert((r + v).take(4) =~= r);
    assert((r + v).skip(4) =~= v);
    if r.len() > 0 && has_prefix(r + v, code) {
        assert((r + v).take(code.len() as int)[2] == code[2]);
        assert(false);
    }
}

/// Taking the port color and reset codes out of a colored ports cell gives
/// back the cell, when it holds no escape character of its own.
pub proof fn lemma_strip_colors_gives_back(s: Seq<char>)
    requires
        forall|i: int| 0 <= i < s.len() ==> #[trigger] s[i] != '\x1b',
    ensures
        strip_port_colors(colorize(s)) == s,
    decreases s.len(),
{
    if s.len() > 0 {
        if is_digit(s[0]) {
            lemma_digit_run_bound(s);
            let k = digit_run(s) as int;
            lemma_digit_run_digits(s);
            let run = s.take(k);
            let rest = s.skip(k);
            assert(forall|i: int| 0 <= i < run.len() ==> is_digit(#[trigger] run[i]));
            assert(forall|i: int| 0 <= i < rest.len() ==> rest[i] == s[i + k]);
            lemma_strip_codes(run, colorize(rest));
            lemma_strip_colors_gives_back(rest);
            assert(run + rest =~= s);
        } else {
            let t = s.drop_first();
            assert(forall|i: int| 0 <= i < t.len() ==> t[i] == s[i + 1]);
            lemma_strip_colors_gives_back(t);
            lemma_strip_passes(seq![s[0]], colorize(t));
            assert(seq![s[0]] + t =~= s);
        }
    }
}

proof fn lemma_digit_run_digits(s: Seq<char>)
    ensures
        forall|i: int| 0 <= i < digit_run(s) ==> is_digit(#[trigger] s[i]),
    decreases s.len(),
{
    lemma_digit_run_bound(s);
    if s.len() > 0 && is_digit(s[0]) {
        lemma_digit_run_digits(s.drop_first());
        assert forall|i: int| 0 <= i < digit_run(s) implies is_digit(#[trigger] s[i]) by {
            if i > 0 {
                assert(s[i] == s.drop_first()[i - 1]);
            }
        }
    }
}

proof fn lemma_digit_run_stops(a: Seq<char>, sep: char, b: Seq<char>)
    requires
        !is_digit(sep),
    ensures
        digit_run(a + seq![sep] + b) == digit_run(a),
    decreases a.len(),
{
    let t = a + seq![sep] + b;
    if a.len() == 0 {
        assert(t[0] == sep);
    } else {
        assert(t[0] == a[0]);
        if is_digit(a[0]) {
            lemma_digit_run_stops(a.drop_first(), sep, b);
            assert(t.drop_first() =~= a.drop_first() + seq![sep] + b);
        }
    }
}

/// Coloring a ports cell splits at a character that is not a digit: each
/// side is colored on its own.
pub proof fn lemma_colorize_splits(a: Seq<char>, sep: char, b: Seq<char>)
    requires
        !is_digit(sep),
    ensures
        colorize(a + seq![sep] + b) == colorize(a) + seq![sep] + colorize(b),
    decreases a.len(),
{
    let t = a + seq![sep] + b;
    if a.len() == 0 {
        assert(t =~= seq![sep] + b);
        assert(t.drop_first() =~= b);
        assert(colorize(a) =~= Seq::<char>::empty());
        assert(colorize(t) == seq![sep] + colorize(b));
        assert(colorize(t) =~= colorize(a) + seq![sep] + colorize(b));
    } else if is_digit(a[0]) {
        lemma_digit_run_stops(a, sep, b);
        lemma_digit_run_bound(a);
        let k = digit_run(a) as int;
        assert(t[0] == a[0]);
        assert(t.take(k) =~= a.take(k));
        assert(t.skip(k) =~= a.skip(k) + seq![sep] + b);
        lemma_colorize_splits(a.skip(k), sep, b);
        assert(colorize(t) == colored(t.take(k), 249, 226, 175) + colorize(t.skip(k)));
        assert(colorize(a) == colored(a.take(k), 249, 226, 175) + colorize(a.skip(k)));
        assert(colorize(t) =~= colorize(a) + seq![sep] + colorize(b));
    } else {
        assert(t[0] == a[0]);
        assert(t.drop_first() =~= a.drop_first() + seq![sep] + b);
        lemma_colorize_splits(a.drop_first(), sep, b);
        assert(colorize(t) == seq![a[0]] + colorize(t.drop_first()));
        assert(colorize(a) == seq![a[0]] + colorize(a.drop_first()));
        assert(colorize(t) =~= colorize(a) + seq![sep] + colorize(b));
    }
}

/// Matching container ids gives the same map for the same ids, in any order
/// and with any repetition.
pub proof fn lemma_cgroup_map_ignores_order(
    ids1: Seq<Seq<char>>,
    ids2: Seq<Seq<char>>,
    dirs: Seq<CgroupDir>,
)
    requires
        forall|id: Seq<char>| ids1.contains(id) <==> ids2.contains(id),
    ensures
        cgroup_map(ids1, dirs) == cgroup_map(ids2, dirs),
{
    assert(cgroup_map(ids1, dirs) =~= cgroup_map(ids2, dirs));
}


/// ASCII status or state texts that differ only in the case of their
/// letters lowercase alike, so they read as the same health and the same
/// running state.
pub proof fn lemma_ascii_case_ignored(a: Seq<char>, b: Seq<char>)
    requires
        a.len() == b.len(),
        forall|i: int| 0 <= i < a.len() ==> ascii_lower_char(#[trigger] a[i]) == ascii_lower_char(b[i]),
    ensures
        ascii_lowercase(a) == ascii_lowercase(b),
        health(ascii_lowercase(a)) == health(ascii_lowercase(b)),
        (ascii_lowercase(a) == "running"@) == (ascii_lowercase(b) == "running"@),
{
    assert(ascii_lowercase(a) =~= ascii_lowercase(b));
}


/// Every character of a decimal representation is a digit, and it has at
/// least one.
pub proof fn lemma_decimal_digits(n: nat)
    ensures
        decimal(n).len() >= 1,
        forall|i: int| 0 <= i < decimal(n).len() ==> is_digit(#[trigger] decimal(n)[i]),
        digits_value(decimal(n)) == n,
    decreases n,
{
    if n >= 10 {
        lemma_decimal_digits(n / 10);
        let d = decimal(n / 10);
        let e = decimal(n);
        assert(e == d.push(digit_char(n % 10)));
        assert(e.drop_last() =~= d);
        assert(digit_char(n % 10) as int == n % 10 + 48);
        assert(crate::text::digit_value(e.last()) == n % 10);
        assert(digits_value(e) == digits_value(d) * 10 + n % 10);
        assert forall|i: int| 0 <= i < e.len() implies is_digit(#[trigger] e[i]) by {
            if i < d.len() {
                assert(e[i] == d[i]);
            }
        }
    } else {
        assert(decimal(n) == seq![digit_char(n)]);
        assert(decimal(n).drop_last() =~= Seq::<char>::empty());
        assert(digit_char(n) as int == n + 48);
        assert(crate::text::digit_value(decimal(n).last()) == n);
        assert(digits_value(Seq::<char>::empty()) == 0);
    }
}

/// Reading back the decimal representation of a `u64` gives the number.
pub proof fn lemma_parse_decimal(n: u64)
    ensures
        parse_u64(decimal(n as nat)) == Some(n),
{
    lemma_decimal_digits(n as nat);
    let d = decimal(n as nat);
    assert(is_digit(d[0]));
}

/// A text without white space at either end is its own trim.
proof fn lemma_trim_keeps(s: Seq<char>)
    requires
        s.len() > 0,
        !is_white(s[0]),
        !is_white(s.last()),
    ensures
        trim(s) == s,
{
}

/// The CPU time read from `cpu.stat` is the number written on its first
/// `usage_usec` line, for every `u64`, whatever follows that line.
pub proof fn lemma_cpu_usage_reads_back(n: u64, rest: Seq<char>)
    ensures
        cpu_usage_usec("usage_usec "@ + decimal(n as nat) + "\n"@ + rest) == Some(n),
{
    reveal_strlit("usage_usec ");
    reveal_strlit("\n");
    lemma_decimal_digits(n as nat);
    let d = decimal(n as nat);
    let first = "usage_usec "@ + d;
    let t = first + "\n"@ + rest;
    assert(t =~= "usage_usec "@ + decimal(n as nat) + "\n"@ + rest);
    assert forall|k: int| 0 <= k < first.len() implies t[k] != '\n' by {
        assert(t[k] == first[k]);
        if k >= 11 {
            assert(first[k] == d[k - 11]);
            assert(is_digit(d[k - 11]));
        }
    }
    assert(t[first.len() as int] == '\n');
    lemma_line_end(t, first.len() as int);
    assert(line_end(t) == first.len());
    assert(t.take(first.len() as int) =~= first);
    assert(first.last() == d.last());
    assert(is_digit(d[d.len() - 1]));
    assert(strip_cr(first) == first);
    let ls = lines(t);
    assert(ls[0] == first);
    assert(has_prefix(first, "usage_usec "@)) by {
        assert(first.take(11) =~= "usage_usec "@);
    }
    assert(first.skip(11) =~= d);
    assert(first_line_after(ls, "usage_usec "@) == Some(d));
    assert(!is_white(d[0]));
    assert(!is_white(d.last()));
    lemma_trim_keeps(d);
    lemma_parse_decimal(n);
}

/// A port mapping is written with a `:` exactly when it has a host port,
/// and then as the host port, `:`, and the container port; without one, as
/// the container port alone. Equal ports are no exception.
pub proof fn lemma_port_key_shape(p: PortMapping)
    ensures
        p.public_port is Some <==> port_key(p).contains(':'),
        match p.public_port {
            Some(pp) => {
                let k = decimal(pp as nat).len() as int;
                &&& port_key(p).take(k) == decimal(pp as nat)
                &&& port_key(p)[k] == ':'
                &&& port_key(p).skip(k + 1) == decimal(p.private_port as nat)
            },
            None => port_key(p) == decimal(p.private_port as nat),
        },
{
    reveal_strlit(":");
    lemma_decimal_digits(p.private_port as nat);
    let dv = decimal(p.private_port as nat);
    match p.public_port {
        Some(pp) => {
            lemma_decimal_digits(pp as nat);
            let dp = decimal(pp as nat);
            let key = port_key(p);
            assert(key =~= dp + seq![':'] + dv);
            let k = dp.len() as int;
            assert(key[k] == ':');
            assert(key.take(k) =~= dp);
            assert(key.skip(k + 1) =~= dv);
        },
        None => {
            if dv.contains(':') {
                let i = choose|i: int| 0 <= i < dv.len() && dv[i] == ':';
                assert(is_digit(dv[i]));
            }
        },
    }
}


/// With `--no-trunc` a container's row shows its whole id, whatever its
/// length; without it, the row shows the beginning of the id, at most
/// twelve characters, and the whole id when it is no longer.
pub proof fn lemma_row_id_cell(row: ContainerRow, stats: Seq<ContainerStats>, id: String)
    requires
        row.id == Some(id),
    ensures
        row_cells(row, stats, true)[0] == colored(id@, 180, 190, 254),
        exists|shown: Seq<char>|
            {
                &&& row_cells(row, stats, false)[0] == colored(shown, 180, 190, 254)
                &&& shown.len() <= 12
                &&& has_prefix(id@, shown)
                &&& (id@.len() <= 12 ==> shown == id@)
            },
{
    lemma_short_id_is_prefix(id@);
    let shown = short_id(id@);
    assert(row_cells(row, stats, false)[0] == colored(shown, 180, 190, 254));
}

/// The ids of the running containers are the whole ids of the running rows:
/// each one is the id of a running row, each running row with an id has its
/// id among them, and there are no more of them than rows.
pub proof fn lemma_running_ids_are_row_ids(rows: Seq<ContainerRow>)
    ensures
        running_ids_of(rows).len() <= rows.len(),
        forall|k: int|
            #![trigger running_ids_of(rows)[k]]
            0 <= k < running_ids_of(rows).len() ==> exists|i: int|
                0 <= i < rows.len() && (#[trigger] rows[i]).id is Some && rows[i].id->0@
                    == running_ids_of(rows)[k] && is_running_state(rows[i].state),
        forall|i: int|
            0 <= i < rows.len() && (#[trigger] rows[i]).id is Some && is_running_state(
                rows[i].state,
            ) ==> running_ids_of(rows).contains(rows[i].id->0@),
    decreases rows.len(),
{
    if rows.len() > 0 {
        let init = rows.drop_last();
        let last = rows.last();
        lemma_running_ids_are_row_ids(init);
        let before = running_ids_of(init);
        let now = running_ids_of(rows);
        let extra: Seq<Seq<char>> = match last.id {
            Some(id) => if is_running_state(last.state) {
                seq![id@]
            } else {
                seq![]
            },
            None => seq![],
        };
        assert(now == before + extra);
        assert forall|k: int| #![trigger now[k]] 0 <= k < now.len() implies exists|i: int|
            0 <= i < rows.len() && (#[trigger] rows[i]).id is Some && rows[i].id->0@ == now[k]
                && is_running_state(rows[i].state) by {
            if k < before.len() {
                assert(now[k] == before[k]);
                let i = choose|i: int|
                    0 <= i < init.len() && (#[trigger] init[i]).id is Some && init[i].id->0@
                        == before[k] && is_running_state(init[i].state);
                assert(rows[i] == init[i]);
            } else {
                assert(rows[rows.len() - 1] == last);
            }
        }
        assert forall|i: int|
            0 <= i < rows.len() && (#[trigger] rows[i]).id is Some && is_running_state(
                rows[i].state,
            ) implies now.contains(rows[i].id->0@) by {
            if i < init.len() {
                assert(rows[i] == init[i]);
                assert(before.contains(init[i].id->0@));
                let k = choose|k: int| 0 <= k < before.len() && before[k] == init[i].id->0@;
                assert(now[k] == before[k]);
            } else {
                assert(rows[i] == last);
                assert(now[before.len() as int] == last.id->0@);
            }
        }
    }
}

/// Each option line of the help names, after the long flag, the short flag
/// that the command line reads as that same long flag.
pub proof fn lemma_help_short_flags(version: Seq<char>)
    ensures
        exists|f: Seq<char>|
            help_text(version)[7] == option_line(
                "--running"@,
                ", "@ + f + "       "@,
                "Show only running containers"@,
            ) && command_of(seq![f]) == command_of(seq!["--running"@]),
        exists|f: Seq<char>|
            help_text(version)[9] == option_line(
                "--version"@,
                ", "@ + f + "       "@,
                "Print version information"@,
            ) && command_of(seq![f]) == command_of(seq!["--version"@]),
        exists|f: Seq<char>|
            help_text(version)[10] == option_line(
                "--help"@,
                ", "@ + f + "       "@,
                "Print help information"@,
            ) && command_of(seq![f]) == command_of(seq!["--help"@]),
{
    reveal_strlit(", ");
    reveal_strlit("       ");
    reveal_strlit(", -r       ");
    reveal_strlit(", -v       ");
    reveal_strlit(", -h       ");
    reveal_strlit("-r");
    reveal_strlit("-v");
    reveal_strlit("-h");
    reveal_strlit("--running");
    reveal_strlit("--version");
    reveal_strlit("--help");
    reveal_strlit("--no-trunc");
    assert(", "@ + "-r"@ + "       "@ =~= ", -r       "@);
    assert(", "@ + "-v"@ + "       "@ =~= ", -v       "@);
    assert(", "@ + "-h"@ + "       "@ =~= ", -h       "@);
    assert("-h"@ != "-v"@) by {
        assert("-h"@[1] != "-v"@[1]);
    }
    assert("-r"@ != "-v"@) by {
        assert("-r"@[1] != "-v"@[1]);
    }
    assert("-r"@ != "-h"@) by {
        assert("-r"@[1] != "-h"@[1]);
    }
    assert("-h"@.len() != "--version"@.len());
    assert("-r"@.len() != "--version"@.len());
    assert("-r"@.len() != "--help"@.len());
    assert("-r"@.len() != "--no-trunc"@.len());
    assert("--help"@.len() != "--version"@.len());
    assert("--help"@.len() != "-v"@.len());
    assert("--running"@ != "--version"@) by {
        assert("--running"@[2] != "--version"@[2]);
    }
    assert("--running"@.len() != "-v"@.len());
    assert("--running"@.len() != "--help"@.len());
    assert("--running"@.len() != "-h"@.len());
    assert("--running"@.len() != "--no-trunc"@.len());
    let one_r = seq!["-r"@];
    let one_running = seq!["--running"@];
    assert(one_r.drop_first() =~= Seq::<Seq<char>>::empty());
    assert(one_running.drop_first() =~= Seq::<Seq<char>>::empty());
    assert(command_of(one_r) == command_of(one_running));
    assert(command_of(seq!["-v"@]) == Command::Version);
    assert(command_of(seq!["--version"@]) == Command::Version);
    assert(command_of(seq!["-h"@]) == Command::Help);
    assert(command_of(seq!["--help"@]) == Command::Help);
    assert(help_text(version)[7] == option_line(
        "--running"@,
        ", "@ + "-r"@ + "       "@,
        "Show only running containers"@,
    ));
    assert(help_text(version)[9] == option_line(
        "--version"@,
        ", "@ + "-v"@ + "       "@,
        "Print version information"@,
    ));
    assert(help_text(version)[10] == option_line(
        "--help"@,
        ", "@ + "-h"@ + "       "@,
        "Print help information"@,
    ));
}

} // verus!
