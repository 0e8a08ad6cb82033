//! The cells of the container listing: identifiers, names, status, health
//! and published ports.
use vstd::prelude::*;
use crate::ansi::{c, colored};
use crate::text::{
    all_ascii, ascii_lowercase, has_prefix, decimal, is_digit, push_char, push_decimal, chars_of, contains, contains_text, join, join_texts, lowercase, same_text, string_from_chars, texts,
    to_lowercase,
};

verus! {

/// How many characters of a container id a truncated listing shows.
pub const SHORT_ID_LEN: usize = 12;

/// The first twelve characters of `id` (all of it when it is shorter).
pub open spec fn short_id(id: Seq<char>) -> Seq<char> {
    if id.len() <= SHORT_ID_LEN {
        id
    } else {
        id.take(SHORT_ID_LEN as int)
    }
}

/// The id cell: the whole id with `no_trunc`, else its first twelve
/// characters; `<none>` for a container without an id.
pub open spec fn id_cell(id: Option<String>, no_trunc: bool) -> Seq<char> {
    match id {
        Some(s) => if no_trunc {
            s@
        } else {
            short_id(s@)
        },
        None => "<none>"@,
    }
}

/// Renders a container id.
pub fn format_id(id: &Option<String>, no_trunc: bool) -> (res: String)
    ensures
        res@ == id_cell(*id, no_trunc),
{
    match id {
        Some(s) => {
            if no_trunc {
                s.clone()
            } else {
                let v = chars_of(s.as_str());
                let k = if v.len() <= SHORT_ID_LEN {
                    v.len()
                } else {
                    SHORT_ID_LEN
                };
                let res = string_from_chars(v.as_slice(), 0, k);
                assert(res@ =~= short_id(s@));
                res
            }
        },
        None => String::from_str("<none>"),
    }
}

/// `s` without the `/` characters it begins with (`trim_start_matches('/')`).
pub open spec fn strip_slashes(s: Seq<char>) -> Seq<char>
    decreases s.len(),
{
    if s.len() > 0 && s[0] == '/' {
        strip_slashes(s.drop_first())
    } else {
        s
    }
}

/// `str::trim_start_matches('/')`.
pub fn strip_leading_slashes(s: &str) -> (res: String)
    ensures
        res@ == strip_slashes(s@),
{
    let v = chars_of(s);
    let n = v.len();
    let mut i: usize = 0;
    assert(s@.subrange(0, n as int) =~= s@);
    while i < n && v[i] == '/'
        invariant
            v@ == s@,
            n == v@.len(),
            i <= n,
            strip_slashes(s@) == strip_slashes(s@.subrange(i as int, n as int)),
        decreases n - i,
    {
        assert(s@.subrange(i as int, n as int).drop_first() =~= s@.subrange(i + 1, n as int));
        i = i + 1;
    }
    string_from_chars(v.as_slice(), i, n)
}

/// The names cell: the names without their leading `/`, joined by `, `;
/// `<none>` when there are none.
pub open spec fn names_cell(names: Option<Vec<String>>) -> Seq<char> {
    match names {
        Some(v) => if v@.len() > 0 {
            join(texts(v@).map_values(|n: Seq<char>| strip_slashes(n)), ", "@)
        } else {
            "<none>"@
        },
        None => "<none>"@,
    }
}

/// Renders the names of a container.
pub fn format_names(names: &Option<Vec<String>>) -> (res: String)
    ensures
        res@ == names_cell(*names),
{
    match names {
        Some(v) => {
            if v.len() == 0 {
                return String::from_str("<none>");
            }
            let mut stripped: Vec<String> = Vec::new();
            let mut i: usize = 0;
            while i < v.len()
                invariant
                    i <= v@.len(),
                    stripped@.len() == i,
                    forall|k: int|
                        0 <= k < i ==> #[trigger] stripped@[k]@ == strip_slashes(v@[k]@),
                decreases v.len() - i,
            {
                stripped.push(strip_leading_slashes(v[i].as_str()));
                i = i + 1;
            }
            assert(texts(stripped@) =~= texts(v@).map_values(|n: Seq<char>| strip_slashes(n)));
            join_texts(&stripped, ", ")
        },
        None => String::from_str("<none>"),
    }
}

/// Whether the state text of a container reads `running` once lowercased.
pub open spec fn is_running_state(state: Option<String>) -> bool {
    match state {
        Some(s) => lowercase(s@) == "running"@,
        None => false,
    }
}

/// Whether a container's state text, lowercased, is `running`.
pub fn state_is_running(state: &Option<String>) -> (res: bool)
    ensures
        res == is_running_state(*state),
        state matches Some(s) ==> all_ascii(s@) ==> res == (ascii_lowercase(s@) == "running"@),
{
    match state {
        Some(s) => {
            let lower = to_lowercase(s.as_str());
            same_text(lower.as_str(), "running")
        },
        None => false,
    }
}

/// The status cell text and whether the container runs.
pub fn format_status(state: &Option<String>) -> (res: (String, bool))
    ensures
        res.1 == is_running_state(*state),
        state matches Some(s) ==> all_ascii(s@) ==> res.1 == (ascii_lowercase(s@) == "running"@),
        res.0@ == (if res.1 {
            "Running"@
        } else {
            "Stopped"@
        }),
{
    if state_is_running(state) {
        (String::from_str("Running"), true)
    } else {
        (String::from_str("Stopped"), false)
    }
}

/// The health of a container from its lowercased status text: the symbol to
/// show, whether it is healthy, and whether it is unhealthy.
pub open spec fn health(lowered: Seq<char>) -> (Seq<char>, bool, bool) {
    if contains_text(lowered, "(healthy)"@) {
        ("\u{25cf}"@, true, false)
    } else if contains_text(lowered, "(unhealthy)"@) {
        ("\u{25cf}"@, false, true)
    } else if contains_text(lowered, "starting"@) {
        ("\u{25cf}"@, false, false)
    } else {
        ("-"@, false, false)
    }
}

/// The health columns for an already lowercased status text.
pub fn health_of_lowered(lowered: &str) -> (res: (String, bool, bool))
    ensures
        (res.0@, res.1, res.2) == health(lowered@),
{
    if contains(lowered, "(healthy)") {
        (String::from_str("\u{25cf}"), true, false)
    } else if contains(lowered, "(unhealthy)") {
        (String::from_str("\u{25cf}"), false, true)
    } else if contains(lowered, "starting") {
        (String::from_str("\u{25cf}"), false, false)
    } else {
        (String::from_str("-"), false, false)
    }
}

/// The status text of a container, lowercased; empty when it has none.
pub open spec fn lowered_status(status: Option<String>) -> Seq<char> {
    match status {
        Some(s) => lowercase(s@),
        None => seq![],
    }
}

/// Lowercases a container's status text (none gives the empty text).
pub fn lower_status(status: &Option<String>) -> (res: String)
    ensures
        res@ == lowered_status(*status),
        status matches Some(s) ==> all_ascii(s@) ==> res@ == ascii_lowercase(s@),
{
    match status {
        Some(s) => to_lowercase(s.as_str()),
        None => String::new(),
    }
}

/// The health symbol and flags of a container, read from its status text.
pub fn format_health(status: &Option<String>) -> (res: (String, bool, bool))
    ensures
        (res.0@, res.1, res.2) == health(lowered_status(*status)),
        status matches Some(s) ==> all_ascii(s@) ==> (res.0@, res.1, res.2) == health(
            ascii_lowercase(s@),
        ),
{
    let lowered = lower_status(status);
    health_of_lowered(lowered.as_str())
}


/// A port that a container publishes: its own port and, when it is bound
/// to one, the host's.
#[derive(Clone, Copy, Debug, PartialEq, Eq)]
pub struct PortMapping {
    pub private_port: u16,
    pub public_port: Option<u16>,
}

/// How one port mapping is written: `public:private`, or `private` alone.
pub open spec fn port_key(p: PortMapping) -> Seq<char> {
    match p.public_port {
        Some(pp) => decimal(pp as nat) + ":"@ + decimal(p.private_port as nat),
        None => decimal(p.private_port as nat),
    }
}

/// `s` with each element kept at its first occurrence only.
pub open spec fn dedup(s: Seq<Seq<char>>) -> Seq<Seq<char>>
    decreases s.len(),
{
    if s.len() == 0 {
        seq![]
    } else if dedup(s.drop_last()).contains(s.last()) {
        dedup(s.drop_last())
    } else {
        dedup(s.drop_last()).push(s.last())
    }
}

/// The ports cell: the distinct mappings in order of first appearance, one
/// per line; `<none>` when there are none.
pub open spec fn ports_cell(ports: Option<Vec<PortMapping>>) -> Seq<char> {
    match ports {
        Some(v) => if v@.len() > 0 && dedup(v@.map_values(|p: PortMapping| port_key(p))).len()
            > 0 {
            join(dedup(v@.map_values(|p: PortMapping| port_key(p))), "\n"@)
        } else {
            "<none>"@
        },
        None => "<none>"@,
    }
}

/// Writes one port mapping.
pub fn port_text(p: &PortMapping) -> (res: String)
    ensures
        res@ == port_key(*p),
{
    let mut out = String::new();
    match p.public_port {
        Some(pp) => {
            push_decimal(&mut out, pp as u64);
            out.append(":");
            push_decimal(&mut out, p.private_port as u64);
        },
        None => {
            push_decimal(&mut out, p.private_port as u64);
        },
    }
    out
}

/// Whether `list` holds a string equal to `item`.
fn holds_text(list: &Vec<String>, item: &str) -> (res: bool)
    ensures
        res == texts(list@).contains(item@),
{
    let mut i: usize = 0;
    while i < list.len()
        invariant
            i <= list@.len(),
            forall|k: int| 0 <= k < i ==> list@[k]@ != item@,
        decreases list.len() - i,
    {
        if same_text(list[i].as_str(), item) {
            assert(texts(list@)[i as int] == item@);
            return true;
        }
        i = i + 1;
    }
    assert(forall|k: int| 0 <= k < texts(list@).len() ==> texts(list@)[k] != item@);
    false
}

/// Renders the published ports of a container.
pub fn format_ports(ports: &Option<Vec<PortMapping>>) -> (res: String)
    ensures
        res@ == ports_cell(*ports),
{
    match ports {
        Some(v) => {
            if v.len() == 0 {
                return String::from_str("<none>");
            }
            let ghost keys = v@.map_values(|p: PortMapping| port_key(p));
            let mut mappings: Vec<String> = Vec::new();
            let mut i: usize = 0;
            assert(keys.take(0) =~= Seq::<Seq<char>>::empty());
            assert(texts(mappings@) =~= Seq::<Seq<char>>::empty());
            while i < v.len()
                invariant
                    i <= v@.len(),
                    keys == v@.map_values(|p: PortMapping| port_key(p)),
                    texts(mappings@) == dedup(keys.take(i as int)),
                decreases v.len() - i,
            {
                let key = port_text(&v[i]);
                let ghost kv = key@;
                assert(keys.take(i + 1).drop_last() =~= keys.take(i as int));
                assert(keys.take(i + 1).last() == key@);
                if !holds_text(&mappings, key.as_str()) {
                    let ghost before = mappings@;
                    mappings.push(key);
                    assert(texts(mappings@) =~= texts(before).push(kv));
                }
                i = i + 1;
            }
            assert(keys.take(v@.len() as int) =~= keys);
            if mappings.len() == 0 {
                String::from_str("<none>")
            } else {
                join_texts(&mappings, "\n")
            }
        },
        None => String::from_str("<none>"),
    }
}

/// Length of the run of decimal digits that `s` begins with.
pub open spec fn digit_run(s: Seq<char>) -> nat
    decreases s.len(),
{
    if s.len() > 0 && is_digit(s[0]) {
        1 + digit_run(s.drop_first())
    } else {
        0
    }
}

/// The run of digits that `s` begins with is no longer than `s`.
pub proof fn lemma_digit_run_bound(s: Seq<char>)
    ensures
        digit_run(s) <= s.len(),
    decreases s.len(),
{
    if s.len() > 0 && is_digit(s[0]) {
        lemma_digit_run_bound(s.drop_first());
    }
}

proof fn lemma_digit_run_is(s: Seq<char>, k: int)
    requires
        0 <= k <= s.len(),
        forall|j: int| 0 <= j < k ==> is_digit(s[j]),
        k == s.len() || !is_digit(s[k]),
    ensures
        digit_run(s) == k,
    decreases k,
{
    if k > 0 {
        lemma_digit_run_is(s.drop_first(), k - 1);
    }
}

/// `s` with each maximal run of digits colored in the port color.
pub open spec fn colorize(s: Seq<char>) -> Seq<char>
    decreases s.len(),
{
    if s.len() == 0 {
        seq![]
    } else if is_digit(s[0]) {
        proof {
            lemma_digit_run_bound(s);
        }
        colored(s.take(digit_run(s) as int), 249, 226, 175) + colorize(s.skip(digit_run(s) as int))
    } else {
        seq![s[0]] + colorize(s.drop_first())
    }
}

/// The escape code that starts a number in a ports cell.
pub open spec fn port_color_code() -> Seq<char> {
    "\x1b[38;2;"@ + decimal(249) + ";"@ + decimal(226) + ";"@ + decimal(175) + "m"@
}

/// The escape code that resets the color.
pub open spec fn reset_code() -> Seq<char> {
    "\x1b[0m"@
}

/// `t` with every port color code and every reset code taken out, read
/// from left to right.
pub open spec fn strip_port_colors(t: Seq<char>) -> Seq<char>
    decreases t.len(),
{
    if t.len() == 0 {
        seq![]
    } else if port_color_code().len() > 0 && has_prefix(t, port_color_code()) {
        strip_port_colors(t.skip(port_color_code().len() as int))
    } else if reset_code().len() > 0 && has_prefix(t, reset_code()) {
        strip_port_colors(t.skip(reset_code().len() as int))
    } else {
        seq![t[0]] + strip_port_colors(t.drop_first())
    }
}

/// Colors the numbers in a ports cell.
pub fn colorize_ports(ports_str: &str) -> (res: String)
    ensures
        res@ == colorize(ports_str@),
{
    let v = chars_of(ports_str);
    let n = v.len();
    let mut out = String::new();
    let mut buf = String::new();
    let mut i: usize = 0;
    assert(ports_str@.skip(0) =~= ports_str@);
    assert(buf@ + ports_str@.skip(0) =~= ports_str@);
    while i < n
        invariant
            v@ == ports_str@,
            n == v@.len(),
            i <= n,
            forall|k: int| 0 <= k < buf@.len() ==> is_digit(#[trigger] buf@[k]),
            colorize(ports_str@) == out@ + colorize(buf@ + ports_str@.skip(i as int)),
        decreases n - i,
    {
        let ch = v[i];
        let ghost rest = ports_str@.skip(i + 1);
        assert(ports_str@.skip(i as int) =~= seq![ch] + rest);
        if '0' <= ch && ch <= '9' {
            let ghost old_buf = buf@;
            push_char(&mut buf, ch);
            assert(old_buf + ports_str@.skip(i as int) =~= buf@ + rest);
        } else {
            let ghost t = buf@ + ports_str@.skip(i as int);
            if !buf.as_str().is_empty() {
                proof {
                    lemma_digit_run_is(t, buf@.len() as int);
                    assert(t.take(buf@.len() as int) =~= buf@);
                    assert(t.skip(buf@.len() as int) =~= seq![ch] + rest);
                    assert((seq![ch] + rest).drop_first() =~= rest);
                    assert(colorize(t) == colored(buf@, 249, 226, 175) + colorize(seq![ch] + rest));
                    assert(colorize(seq![ch] + rest) == seq![ch] + colorize(rest));
                }
                let colored_buf = c(buf.as_str(), 249, 226, 175);
                out.append(colored_buf.as_str());
            } else {
                proof {
                    assert(t =~= seq![ch] + rest);
                    assert(t.drop_first() =~= rest);
                    assert(colorize(t) == seq![ch] + colorize(rest));
                }
            }
            let ghost out_before = out@;
            push_char(&mut out, ch);
            buf = String::new();
            assert(buf@ + rest =~= rest);
            assert(out@ =~= out_before + seq![ch]);
        }
        i = i + 1;
    }
    let ghost t = buf@ + ports_str@.skip(n as int);
    assert(ports_str@.skip(n as int) =~= Seq::<char>::empty());
    assert(t =~= buf@);
    if buf.as_str().is_empty() {
        assert(colorize(t) =~= Seq::<char>::empty());
    }
    if !buf.as_str().is_empty() {
        proof {
            lemma_digit_run_is(t, buf@.len() as int);
            assert(t.take(buf@.len() as int) =~= buf@);
            assert(t.skip(buf@.len() as int) =~= Seq::<char>::empty());
            assert(colorize(t) == colored(buf@, 249, 226, 175) + colorize(Seq::<char>::empty()));
        }
        let colored_buf = c(buf.as_str(), 249, 226, 175);
        out.append(colored_buf.as_str());
    }
    out
}


/// The size of the unit numbered `e`: B, K, M, G, T.
pub open spec fn unit_size(e: nat) -> nat {
    if e == 0 {
        1
    } else if e == 1 {
        1024
    } else if e == 2 {
        1048576
    } else if e == 3 {
        1073741824
    } else {
        1099511627776
    }
}

/// The name of the unit numbered `e`.
pub open spec fn unit_name(e: nat) -> Seq<char> {
    if e == 0 {
        "B"@
    } else if e == 1 {
        "K"@
    } else if e == 2 {
        "M"@
    } else if e == 3 {
        "G"@
    } else {
        "T"@
    }
}

/// The largest unit, up to T, that is no larger than `bytes`.
pub open spec fn unit_exponent(bytes: nat) -> nat {
    if bytes < unit_size(1) {
        0
    } else if bytes < unit_size(2) {
        1
    } else if bytes < unit_size(3) {
        2
    } else if bytes < unit_size(4) {
        3
    } else {
        4
    }
}

/// The gap between neighbouring 64-bit floats around `n` (1 below 2^53).
pub open spec fn float_spacing(n: nat) -> nat
    decreases n,
{
    if n < 0x20_0000_0000_0000 {
        1
    } else {
        2 * float_spacing(n / 2)
    }
}

/// The 64-bit float nearest to `n`, ties to even (what `n as f64` holds).
pub open spec fn as_float(n: nat) -> nat {
    let sp = float_spacing(n);
    let q = n / sp;
    let r = n % sp;
    if 2 * r > sp || (2 * r == sp && q % 2 == 1) {
        (q + 1) * sp
    } else {
        q * sp
    }
}

/// The number shown for `bytes`: the size in its unit, rounded to the
/// nearest whole number, halves up.
pub open spec fn scaled_size(bytes: nat) -> nat {
    (as_float(bytes) + unit_size(unit_exponent(bytes)) / 2) / unit_size(unit_exponent(bytes))
}

/// A byte count in the largest unit (B, K, M, G or T, steps of 1024) that
/// it reaches.
pub open spec fn human_size(bytes: nat) -> Seq<char> {
    if bytes == 0 {
        "0B"@
    } else {
        decimal(scaled_size(bytes)) + unit_name(unit_exponent(bytes))
    }
}

proof fn lemma_spacing_step(n: nat)
    requires
        n >= 0x20_0000_0000_0000,
    ensures
        float_spacing(n) == 2 * float_spacing(n / 2),
{
}

proof fn lemma_spacing_positive(n: nat)
    ensures
        float_spacing(n) >= 1,
    decreases n,
{
    if n >= 0x20_0000_0000_0000 {
        lemma_spacing_positive(n / 2);
    }
}

proof fn lemma_halving_step(n: nat, sp: nat, m: nat)
    requires
        float_spacing(n) == sp * float_spacing(m),
        sp * m <= n,
        sp >= 1,
        m >= 0x20_0000_0000_0000,
    ensures
        float_spacing(n) == (2 * sp) * float_spacing(m / 2),
        (2 * sp) * (m / 2) <= n,
{
    lemma_spacing_step(m);
    let fm = float_spacing(m / 2);
    assert(sp * (2 * fm) == (2 * sp) * fm) by (nonlinear_arith);
    assert((2 * sp) * (m / 2) <= sp * m) by (nonlinear_arith)
        requires
            sp >= 1,
    ;
}

proof fn lemma_spacing_at_most(n: nat, sp: nat, m: nat)
    requires
        sp * m <= n,
        m >= 1,
        sp >= 1,
    ensures
        sp <= n,
{
    assert(sp <= n) by (nonlinear_arith)
        requires
            sp * m <= n,
            m >= 1,
            sp >= 1,
    ;
}

proof fn lemma_round_bounds(n: nat, sp: nat)
    requires
        1 <= sp <= n,
    ensures
        (n / sp) * sp <= n,
        (n / sp + 1) * sp <= 2 * n,
{
    let q = n / sp;
    assert(q * sp <= n) by (nonlinear_arith)
        requires
            q == n / sp,
            sp >= 1,
    ;
    assert((q + 1) * sp == q * sp + sp) by (nonlinear_arith);
}

/// The gap between neighbouring 64-bit floats around `n`.
fn spacing_of(n: u64) -> (sp: u128)
    requires
        n >= 1,
    ensures
        sp as nat == float_spacing(n as nat),
        1 <= sp <= n,
{
    let mut sp: u128 = 1;
    let mut m: u64 = n;
    while m >= 0x20_0000_0000_0000
        invariant
            float_spacing(n as nat) == sp * float_spacing(m as nat),
            sp * m <= n,
            sp >= 1,
            m >= 1,
        decreases m,
    {
        proof {
            lemma_halving_step(n as nat, sp as nat, m as nat);
            lemma_spacing_at_most(n as nat, sp as nat, m as nat);
        }
        sp = sp * 2;
        m = m / 2;
    }
    proof {
        assert(float_spacing(m as nat) == 1);
        lemma_spacing_at_most(n as nat, sp as nat, m as nat);
    }
    sp
}

/// `n as f64`, as an exact integer.
fn float_of(n: u64) -> (res: u128)
    requires
        n >= 1,
    ensures
        res as nat == as_float(n as nat),
        res <= 2 * n,
{
    let sp = spacing_of(n);
    let nn: u128 = n as u128;
    let q: u128 = nn / sp;
    let r: u128 = nn % sp;
    proof {
        lemma_round_bounds(nn as nat, sp as nat);
    }
    if 2 * r > sp || (2 * r == sp && q % 2 == 1) {
        (q + 1) * sp
    } else {
        q * sp
    }
}

/// Renders a byte count for humans, e.g. `512B`, `2K`, `1G`.
pub fn human_bytes(bytes: u64) -> (res: String)
    ensures
        res@ == human_size(bytes as nat),
{
    if bytes == 0 {
        return String::from_str("0B");
    }
    let e: u64 = if bytes < 1024 {
        0
    } else if bytes < 1048576 {
        1
    } else if bytes < 1073741824 {
        2
    } else if bytes < 1099511627776 {
        3
    } else {
        4
    };
    let unit: u128 = if e == 0 {
        1
    } else if e == 1 {
        1024
    } else if e == 2 {
        1048576
    } else if e == 3 {
        1073741824
    } else {
        1099511627776
    };
    assert(e == unit_exponent(bytes as nat));
    assert(unit == unit_size(e as nat));
    let x: u128 = if bytes < 0x20_0000_0000_0000 {
        proof {
            assert(float_spacing(bytes as nat) == 1);
            assert(as_float(bytes as nat) == bytes);
        }
        bytes as u128
    } else {
        float_of(bytes)
    };
    proof {
        lemma_spacing_positive(bytes as nat);
    }
    assert(x <= 2 * (bytes as u128));
    let value: u128 = (x + unit / 2) / unit;
    assert(value <= x + unit / 2) by (nonlinear_arith)
        requires
            unit >= 1,
            value as int == (x + unit / 2) / (unit as int),
    ;
    let mut out = String::new();
    push_decimal(&mut out, value as u64);
    let name = if e == 0 {
        "B"
    } else if e == 1 {
        "K"
    } else if e == 2 {
        "M"
    } else if e == 3 {
        "G"
    } else {
        "T"
    };
    out.append(name);
    out
}

} // verus!
