//! The persistence text format: one record as one JSON object on a single
//! line, every field present, `null` standing for an absent field.
//!
//! The format is the crate's own contract with downstream consumers of the
//! harvested data, so both directions live here as verified code: the
//! encoder renders a record, the specification-level parser reads one back,
//! and the round-trip law at the bottom ties the two together.

use vstd::prelude::*;
use vstd::string::StrSliceExecFns;
use crate::record::{opt_text_view, Record, RecordView};

verus! {

// ----- character classes ---------------------------------------------------

pub open spec fn is_digit_char(c: char) -> bool {
    48 <= c as u32 <= 57
}

pub open spec fn digit_val(c: char) -> int {
    c as u32 - 48
}

pub open spec fn digit_char(d: int) -> char {
    if d == 0 {
        '0'
    } else if d == 1 {
        '1'
    } else if d == 2 {
        '2'
    } else if d == 3 {
        '3'
    } else if d == 4 {
        '4'
    } else if d == 5 {
        '5'
    } else if d == 6 {
        '6'
    } else if d == 7 {
        '7'
    } else if d == 8 {
        '8'
    } else {
        '9'
    }
}

pub open spec fn all_digits(s: Seq<char>) -> bool {
    forall|i: int| 0 <= i < s.len() ==> is_digit_char(s[i])
}

/// Text fields are persisted as they are, up to escaping; control
/// characters have no unescaped place inside a JSON string, so a record
/// carrying one is not serializable.
pub open spec fn wf_text(s: Seq<char>) -> bool {
    forall|i: int| 0 <= i < s.len() ==> (s[i] as u32) >= 32
}

pub open spec fn wf_opt_text(o: Option<Seq<char>>) -> bool {
    match o {
        Option::None => true,
        Option::Some(s) => wf_text(s),
    }
}

// ----- number text ----------------------------------------------------------

/// Count of leading decimal digits.
pub open spec fn digit_prefix_len(s: Seq<char>) -> int
    decreases s.len(),
{
    if s.len() > 0 && is_digit_char(s[0]) {
        1 + digit_prefix_len(s.drop_first())
    } else {
        0
    }
}

pub open spec fn strip_minus(s: Seq<char>) -> Seq<char> {
    if s.len() > 0 && s[0] == '-' {
        s.drop_first()
    } else {
        s
    }
}

/// The timing value is kept as the decimal text the upstream reported:
/// an optional minus sign, at least one digit, and optionally a dot
/// followed by at least one more digit. Emitted without quotes, such a
/// token reads back verbatim.
pub open spec fn is_number_text(s: Seq<char>) -> bool {
    let b = strip_minus(s);
    let d = digit_prefix_len(b);
    d >= 1 && (d == b.len() || (b[d] == '.' && b.len() >= d + 2 && all_digits(b.skip(d + 1))))
}

pub open spec fn is_number_opt(o: Option<Seq<char>>) -> bool {
    match o {
        Option::None => true,
        Option::Some(s) => is_number_text(s),
    }
}

/// A record the sink can render: text fields free of control characters,
/// and the timing value, if present, a decimal number token.
pub open spec fn serializable(v: RecordView) -> bool {
    &&& wf_opt_text(v.steam_id)
    &&& wf_opt_text(v.player_name)
    &&& wf_opt_text(v.map_name)
    &&& wf_opt_text(v.mode)
    &&& wf_opt_text(v.server_name)
    &&& wf_opt_text(v.created_on)
    &&& wf_opt_text(v.updated_on)
    &&& is_number_opt(v.time)
}

// ----- encoding, at the specification level ---------------------------------

/// The decimal digits of `n`, most significant first.
pub open spec fn dec_str(n: int) -> Seq<char>
    recommends
        n >= 0,
    decreases n,
{
    if n < 10 {
        seq![digit_char(n)]
    } else {
        dec_str(n / 10).push(digit_char(n % 10))
    }
}

/// How one character stands inside a JSON string: quote and backslash are
/// escaped, everything else is itself.
pub open spec fn esc_char(c: char) -> Seq<char> {
    if c == '"' {
        seq!['\\', '"']
    } else if c == '\\' {
        seq!['\\', '\\']
    } else {
        seq![c]
    }
}

pub open spec fn esc_text(s: Seq<char>) -> Seq<char>
    decreases s.len(),
{
    if s.len() == 0 {
        Seq::empty()
    } else {
        esc_char(s[0]) + esc_text(s.drop_first())
    }
}

pub open spec fn enc_opt_num(o: Option<u64>) -> Seq<char> {
    match o {
        Option::None => "null"@,
        Option::Some(n) => dec_str(n as int),
    }
}

pub open spec fn enc_opt_text(o: Option<Seq<char>>) -> Seq<char> {
    match o {
        Option::None => "null"@,
        Option::Some(s) => seq!['"'] + (esc_text(s) + seq!['"']),
    }
}

pub open spec fn enc_opt_raw(o: Option<Seq<char>>) -> Seq<char> {
    match o {
        Option::None => "null"@,
        Option::Some(s) => s,
    }
}

// The object text, field by field; each `tail_*` function is everything
// from the comma before its field onward.

pub open spec fn tail_close() -> Seq<char> {
    "}"@
}

pub open spec fn tail_updated_on(v: RecordView) -> Seq<char> {
    ",\"updated_on\":"@ + (enc_opt_text(v.updated_on) + tail_close())
}

pub open spec fn tail_created_on(v: RecordView) -> Seq<char> {
    ",\"created_on\":"@ + (enc_opt_text(v.created_on) + tail_updated_on(v))
}

pub open spec fn tail_replay_id(v: RecordView) -> Seq<char> {
    ",\"replay_id\":"@ + (enc_opt_num(v.replay_id) + tail_created_on(v))
}

pub open spec fn tail_points(v: RecordView) -> Seq<char> {
    ",\"points\":"@ + (enc_opt_num(v.points) + tail_replay_id(v))
}

pub open spec fn tail_server_name(v: RecordView) -> Seq<char> {
    ",\"server_name\":"@ + (enc_opt_text(v.server_name) + tail_points(v))
}

pub open spec fn tail_server_id(v: RecordView) -> Seq<char> {
    ",\"server_id\":"@ + (enc_opt_num(v.server_id) + tail_server_name(v))
}

pub open spec fn tail_teleports(v: RecordView) -> Seq<char> {
    ",\"teleports\":"@ + (enc_opt_num(v.teleports) + tail_server_id(v))
}

pub open spec fn tail_time(v: RecordView) -> Seq<char> {
    ",\"time\":"@ + (enc_opt_raw(v.time) + tail_teleports(v))
}

pub open spec fn tail_mode(v: RecordView) -> Seq<char> {
    ",\"mode\":"@ + (enc_opt_text(v.mode) + tail_time(v))
}

pub open spec fn tail_stage(v: RecordView) -> Seq<char> {
    ",\"stage\":"@ + (enc_opt_num(v.stage) + tail_mode(v))
}

pub open spec fn tail_map_name(v: RecordView) -> Seq<char> {
    ",\"map_name\":"@ + (enc_opt_text(v.map_name) + tail_stage(v))
}

pub open spec fn tail_map_id(v: RecordView) -> Seq<char> {
    ",\"map_id\":"@ + (enc_opt_num(v.map_id) + tail_map_name(v))
}

pub open spec fn tail_player_name(v: RecordView) -> Seq<char> {
    ",\"player_name\":"@ + (enc_opt_text(v.player_name) + tail_map_id(v))
}

pub open spec fn tail_steam_id(v: RecordView) -> Seq<char> {
    ",\"steam_id\":"@ + (enc_opt_text(v.steam_id) + tail_player_name(v))
}

/// The whole object: every field of the record, in the upstream's order,
/// absent fields rendered as `null`.
pub open spec fn spec_obj(v: RecordView) -> Seq<char> {
    "{\"id\":"@ + (enc_opt_num(v.id) + tail_steam_id(v))
}

// ----- encoding, executable --------------------------------------------------

/// Append every character of an ASCII-or-not literal.
fn push_lit(out: &mut Vec<char>, lit: &str)
    ensures
        final(out)@ == old(out)@ + lit@,
{
    let n = lit.unicode_len();
    let mut i: usize = 0;
    while i < n
        invariant
            i <= n,
            n == lit@.len(),
            out@ == old(out)@ + lit@.take(i as int),
        decreases n - i,
    {
        let c = lit.get_char(i);
        out.push(c);
        proof {
            assert(out@ =~= old(out)@ + lit@.take(i + 1));
        }
        i = i + 1;
    }
    proof {
        assert(lit@.take(n as int) =~= lit@);
    }
}

fn digit_to_char(d: u64) -> (c: char)
    requires
        d < 10,
    ensures
        c == digit_char(d as int),
{
    if d == 0 {
        '0'
    } else if d == 1 {
        '1'
    } else if d == 2 {
        '2'
    } else if d == 3 {
        '3'
    } else if d == 4 {
        '4'
    } else if d == 5 {
        '5'
    } else if d == 6 {
        '6'
    } else if d == 7 {
        '7'
    } else if d == 8 {
        '8'
    } else {
        '9'
    }
}

/// Append the decimal digits of `n`, most significant first, mirroring the
/// recursion of [`dec_str`].
fn push_u64(out: &mut Vec<char>, n: u64)
    ensures
        final(out)@ == old(out)@ + dec_str(n as int),
    decreases n,
{
    if n < 10 {
        out.push(digit_to_char(n));
        proof {
            assert(out@ =~= old(out)@ + seq![digit_char(n as int)]);
        }
    } else {
        push_u64(out, n / 10);
        out.push(digit_to_char(n % 10));
        proof {
            assert((n / 10) as int == n as int / 10);
            assert((n % 10) as int == n as int % 10);
            assert(out@ =~= old(out)@ + dec_str(n as int / 10).push(digit_char(n as int % 10)));
        }
    }
}

proof fn lemma_esc_text_push(s: Seq<char>, c: char)
    ensures
        esc_text(s.push(c)) =~= esc_text(s) + esc_char(c),
    decreases s.len(),
{
    if s.len() == 0 {
        assert(s.push(c).drop_first() =~= Seq::<char>::empty());
        assert(s.push(c)[0] == c);
        assert(esc_text(s) =~= Seq::<char>::empty());
        assert(esc_text(s.push(c)) =~= esc_char(c) + esc_text(Seq::<char>::empty()));
    } else {
        assert(s.push(c).drop_first() =~= s.drop_first().push(c));
        assert(s.push(c)[0] == s[0]);
        lemma_esc_text_push(s.drop_first(), c);
        assert(esc_text(s.push(c)) =~= esc_char(s[0]) + (esc_text(s.drop_first()) + esc_char(c)));
    }
}

/// Append a text field's characters, escaping quote and backslash.
fn push_escaped(out: &mut Vec<char>, s: &Vec<char>)
    ensures
        final(out)@ == old(out)@ + esc_text(s@),
{
    let n = s.len();
    let mut i: usize = 0;
    while i < n
        invariant
            i <= n,
            n == s@.len(),
            out@ == old(out)@ + esc_text(s@.take(i as int)),
        decreases n - i,
    {
        let c = s[i];
        if c == '"' {
            out.push('\\');
            out.push('"');
        } else if c == '\\' {
            out.push('\\');
            out.push('\\');
        } else {
            out.push(c);
        }
        proof {
            lemma_esc_text_push(s@.take(i as int), s@[i as int]);
            assert(s@.take(i + 1) =~= s@.take(i as int).push(s@[i as int]));
            assert(out@ =~= old(out)@ + esc_text(s@.take(i + 1)));
        }
        i = i + 1;
    }
    proof {
        assert(s@.take(n as int) =~= s@);
    }
}

fn push_opt_num(out: &mut Vec<char>, o: Option<u64>)
    ensures
        final(out)@ == old(out)@ + enc_opt_num(o),
{
    match o {
        Option::None => push_lit(out, "null"),
        Option::Some(n) => push_u64(out, n),
    }
}

fn push_opt_text(out: &mut Vec<char>, o: &Option<Vec<char>>)
    ensures
        final(out)@ == old(out)@ + enc_opt_text(opt_text_view(*o)),
{
    match o {
        Option::None => push_lit(out, "null"),
        Option::Some(s) => {
            out.push('"');
            push_escaped(out, s);
            out.push('"');
            proof {
                assert(out@ =~= old(out)@ + (seq!['"'] + (esc_text(s@) + seq!['"'])));
            }
        },
    }
}

fn push_opt_raw(out: &mut Vec<char>, o: &Option<Vec<char>>)
    ensures
        final(out)@ == old(out)@ + enc_opt_raw(opt_text_view(*o)),
{
    match o {
        Option::None => push_lit(out, "null"),
        Option::Some(s) => {
            let n = s.len();
            let mut i: usize = 0;
            while i < n
                invariant
                    i <= n,
                    n == s@.len(),
                    out@ == old(out)@ + s@.take(i as int),
                decreases n - i,
            {
                let c = s[i];
                out.push(c);
                proof {
                    assert(out@ =~= old(out)@ + s@.take(i + 1));
                }
                i = i + 1;
            }
            proof {
                assert(s@.take(n as int) =~= s@);
            }
        },
    }
}

// ----- well-formedness checks, executable -------------------------------------

fn text_is_wf(s: &Vec<char>) -> (b: bool)
    ensures
        b == wf_text(s@),
{
    let n = s.len();
    let mut i: usize = 0;
    while i < n
        invariant
            i <= n,
            n == s@.len(),
            forall|j: int| 0 <= j < i ==> (s@[j] as u32) >= 32,
        decreases n - i,
    {
        if (s[i] as u32) < 32 {
            return false;
        }
        i = i + 1;
    }
    true
}

fn opt_text_is_wf(o: &Option<Vec<char>>) -> (b: bool)
    ensures
        b == wf_opt_text(opt_text_view(*o)),
{
    match o {
        Option::None => true,
        Option::Some(s) => text_is_wf(s),
    }
}

proof fn lemma_digit_prefix_chars(s: Seq<char>)
    ensures
        0 <= digit_prefix_len(s) <= s.len(),
        forall|j: int| 0 <= j < digit_prefix_len(s) ==> is_digit_char(s[j]),
        digit_prefix_len(s) < s.len() ==> !is_digit_char(s[digit_prefix_len(s)]),
    decreases s.len(),
{
    if s.len() > 0 && is_digit_char(s[0]) {
        lemma_digit_prefix_chars(s.drop_first());
        assert forall|j: int| 0 <= j < digit_prefix_len(s) implies is_digit_char(s[j]) by {
            if j > 0 {
                assert(s.drop_first()[j - 1] == s[j]);
            }
        }
    }
}

proof fn lemma_digit_prefix_is(s: Seq<char>, k: int)
    requires
        0 <= k <= s.len(),
        forall|j: int| 0 <= j < k ==> is_digit_char(s[j]),
        k < s.len() ==> !is_digit_char(s[k]),
    ensures
        digit_prefix_len(s) == k,
{
    lemma_digit_prefix_chars(s);
}

fn number_text_check(s: &Vec<char>) -> (b: bool)
    ensures
        b == is_number_text(s@),
{
    let n = s.len();
    if n == 0 {
        proof {
            assert(strip_minus(s@) =~= s@);
        }
        return false;
    }
    let start: usize = if s[0] == '-' {
        1
    } else {
        0
    };
    let ghost body = strip_minus(s@);
    proof {
        if start == 1 {
            assert(body =~= s@.drop_first());
        } else {
            assert(body =~= s@);
        }
        assert(body.len() == n - start);
        assert(forall|j: int| 0 <= j < body.len() ==> body[j] == s@[j + start]);
    }
    let mut i: usize = start;
    loop
        invariant
            start <= i <= n,
            n == s@.len(),
            start <= 1,
            body.len() == n - start,
            forall|j: int| 0 <= j < body.len() ==> body[j] == s@[j + start],
            forall|j: int| start <= j < i ==> is_digit_char(s@[j]),
        ensures
            start <= i <= n,
            forall|j: int| start <= j < i ==> is_digit_char(s@[j]),
            i < n ==> !is_digit_char(s@[i as int]),
        decreases n - i,
    {
        if i >= n {
            break;
        }
        let c = s[i];
        if !(48 <= c as u32 && c as u32 <= 57) {
            break;
        }
        i = i + 1;
    }
    let d = i - start;
    proof {
        lemma_digit_prefix_is(body, d as int);
    }
    if d == 0 {
        return false;
    }
    if i == n {
        return true;
    }
    proof {
        assert(body[d as int] == s@[i as int]);
    }
    if s[i] != '.' {
        return false;
    }
    if i + 1 == n {
        return false;
    }
    let mut j: usize = i + 1;
    while j < n
        invariant
            i + 1 <= j <= n,
            n == s@.len(),
            start <= 1,
            start <= i < n,
            d == i - start,
            1 <= d,
            body == strip_minus(s@),
            digit_prefix_len(body) == d,
            body.len() == n - start,
            body[d as int] == '.',
            forall|k: int| 0 <= k < body.len() ==> body[k] == s@[k + start],
            forall|k: int| i + 1 <= k < j ==> is_digit_char(s@[k]),
        decreases n - j,
    {
        let c = s[j];
        if !(48 <= c as u32 && c as u32 <= 57) {
            proof {
                assert(0 <= j - i - 1 < body.skip(d + 1).len());
                assert(body.skip(d + 1)[j - i - 1] == body[(j - i - 1) + (d + 1)]);
                assert(body[(j - i - 1) + (d + 1)] == s@[j as int]);
                assert(!is_digit_char(body.skip(d + 1)[j - i - 1]));
                assert(!all_digits(body.skip(d + 1)));
            }
            return false;
        }
        j = j + 1;
    }
    proof {
        assert(body[d as int] == s@[i as int]);
        assert(body.skip(d + 1).len() == n - i - 1);
        assert(forall|k: int|
            0 <= k < body.skip(d + 1).len() ==> #[trigger] body.skip(d + 1)[k] == s@[k + i + 1]);
        assert(all_digits(body.skip(d + 1)));
    }
    true
}

fn opt_number_check(o: &Option<Vec<char>>) -> (b: bool)
    ensures
        b == is_number_opt(opt_text_view(*o)),
{
    match o {
        Option::None => true,
        Option::Some(s) => number_text_check(s),
    }
}

/// Whether this record can be rendered: no control characters in its text
/// fields, and a decimal number token (or nothing) as its timing value.
pub fn record_is_serializable(r: &Record) -> (b: bool)
    ensures
        b == serializable(r@),
{
    opt_text_is_wf(&r.steam_id) && opt_text_is_wf(&r.player_name) && opt_text_is_wf(&r.map_name)
        && opt_text_is_wf(&r.mode) && opt_text_is_wf(&r.server_name) && opt_text_is_wf(
        &r.created_on,
    ) && opt_text_is_wf(&r.updated_on) && opt_number_check(&r.time)
}

// The executable renderer mirrors the `tail_*` functions one for one, so
// that each step's proof is a short reassociation.

fn push_tail_updated_on(out: &mut Vec<char>, r: &Record)
    ensures
        final(out)@ == old(out)@ + tail_updated_on(r@),
{
    push_lit(out, ",\"updated_on\":");
    push_opt_text(out, &r.updated_on);
    push_lit(out, "}");
    proof {
        assert(out@ =~= old(out)@ + tail_updated_on(r@));
    }
}

fn push_tail_created_on(out: &mut Vec<char>, r: &Record)
    ensures
        final(out)@ == old(out)@ + tail_created_on(r@),
{
    push_lit(out, ",\"created_on\":");
    push_opt_text(out, &r.created_on);
    push_tail_updated_on(out, r);
    proof {
        assert(out@ =~= old(out)@ + tail_created_on(r@));
    }
}

fn push_tail_replay_id(out: &mut Vec<char>, r: &Record)
    ensures
        final(out)@ == old(out)@ + tail_replay_id(r@),
{
    push_lit(out, ",\"replay_id\":");
    push_opt_num(out, r.replay_id);
    push_tail_created_on(out, r);
    proof {
        assert(out@ =~= old(out)@ + tail_replay_id(r@));
    }
}

fn push_tail_points(out: &mut Vec<char>, r: &Record)
    ensures
        final(out)@ == old(out)@ + tail_points(r@),
{
    push_lit(out, ",\"points\":");
    push_opt_num(out, r.points);
    push_tail_replay_id(out, r);
    proof {
        assert(out@ =~= old(out)@ + tail_points(r@));
    }
}

fn push_tail_server_name(out: &mut Vec<char>, r: &Record)
    ensures
        final(out)@ == old(out)@ + tail_server_name(r@),
{
    push_lit(out, ",\"server_name\":");
    push_opt_text(out, &r.server_name);
    push_tail_points(out, r);
    proof {
        assert(out@ =~= old(out)@ + tail_server_name(r@));
    }
}

fn push_tail_server_id(out: &mut Vec<char>, r: &Record)
    ensures
        final(out)@ == old(out)@ + tail_server_id(r@),
{
    push_lit(out, ",\"server_id\":");
    push_opt_num(out, r.server_id);
    push_tail_server_name(out, r);
    proof {
        assert(out@ =~= old(out)@ + tail_server_id(r@));
    }
}

fn push_tail_teleports(out: &mut Vec<char>, r: &Record)
    ensures
        final(out)@ == old(out)@ + tail_teleports(r@),
{
    push_lit(out, ",\"teleports\":");
    push_opt_num(out, r.teleports);
    push_tail_server_id(out, r);
    proof {
        assert(out@ =~= old(out)@ + tail_teleports(r@));
    }
}

fn push_tail_time(out: &mut Vec<char>, r: &Record)
    ensures
        final(out)@ == old(out)@ + tail_time(r@),
{
    push_lit(out, ",\"time\":");
    push_opt_raw(out, &r.time);
    push_tail_teleports(out, r);
    proof {
        assert(out@ =~= old(out)@ + tail_time(r@));
    }
}

fn push_tail_mode(out: &mut Vec<char>, r: &Record)
    ensures
        final(out)@ == old(out)@ + tail_mode(r@),
{
    push_lit(out, ",\"mode\":");
    push_opt_text(out, &r.mode);
    push_tail_time(out, r);
    proof {
        assert(out@ =~= old(out)@ + tail_mode(r@));
    }
}

fn push_tail_stage(out: &mut Vec<char>, r: &Record)
    ensures
        final(out)@ == old(out)@ + tail_stage(r@),
{
    push_lit(out, ",\"stage\":");
    push_opt_num(out, r.stage);
    push_tail_mode(out, r);
    proof {
        assert(out@ =~= old(out)@ + tail_stage(r@));
    }
}

fn push_tail_map_name(out: &mut Vec<char>, r: &Record)
    ensures
        final(out)@ == old(out)@ + tail_map_name(r@),
{
    push_lit(out, ",\"map_name\":");
    push_opt_text(out, &r.map_name);
    push_tail_stage(out, r);
    proof {
        assert(out@ =~= old(out)@ + tail_map_name(r@));
    }
}

fn push_tail_map_id(out: &mut Vec<char>, r: &Record)
    ensures
        final(out)@ == old(out)@ + tail_map_id(r@),
{
    push_lit(out, ",\"map_id\":");
    push_opt_num(out, r.map_id);
    push_tail_map_name(out, r);
    proof {
        assert(out@ =~= old(out)@ + tail_map_id(r@));
    }
}

fn push_tail_player_name(out: &mut Vec<char>, r: &Record)
    ensures
        final(out)@ == old(out)@ + tail_player_name(r@),
{
    push_lit(out, ",\"player_name\":");
    push_opt_text(out, &r.player_name);
    push_tail_map_id(out, r);
    proof {
        assert(out@ =~= old(out)@ + tail_player_name(r@));
    }
}

fn push_tail_steam_id(out: &mut Vec<char>, r: &Record)
    ensures
        final(out)@ == old(out)@ + tail_steam_id(r@),
{
    push_lit(out, ",\"steam_id\":");
    push_opt_text(out, &r.steam_id);
    push_tail_player_name(out, r);
    proof {
        assert(out@ =~= old(out)@ + tail_steam_id(r@));
    }
}

/// Render one record as its JSON object text. `None` exactly when the
/// record is not serializable; a returned text is exactly [`spec_obj`] of
/// the record.
pub fn encode_record(r: &Record) -> (res: Option<Vec<char>>)
    ensures
        res is Some <==> serializable(r@),
        match res {
            Option::Some(cs) => cs@ == spec_obj(r@),
            Option::None => true,
        },
{
    if !record_is_serializable(r) {
        return Option::None;
    }
    let mut out: Vec<char> = Vec::new();
    push_lit(&mut out, "{\"id\":");
    push_opt_num(&mut out, r.id);
    push_tail_steam_id(&mut out, r);
    proof {
        assert(out@ =~= spec_obj(r@));
    }
    Option::Some(out)
}

// ----- decoding, at the specification level ---------------------------------

/// Strip the literal `l` off the front of `s`, or nothing if it is not
/// there.
pub open spec fn expect(s: Seq<char>, l: Seq<char>) -> Option<Seq<char>> {
    if l.len() <= s.len() && s.take(l.len() as int) == l {
        Option::Some(s.skip(l.len() as int))
    } else {
        Option::None
    }
}

/// The value of a digit string, most significant digit first.
pub open spec fn digits_val(s: Seq<char>) -> int
    decreases s.len(),
{
    if s.len() == 0 {
        0
    } else {
        digits_val(s.take(s.len() - 1)) * 10 + digit_val(s.last())
    }
}

/// Read a numeric field: `null`, or a run of digits whose value fits the
/// field's type.
pub open spec fn parse_opt_num(s: Seq<char>) -> Option<(Option<u64>, Seq<char>)> {
    match expect(s, "null"@) {
        Option::Some(r) => Option::Some((Option::None, r)),
        Option::None => {
            let d = digit_prefix_len(s);
            if d < 1 {
                Option::None
            } else if digits_val(s.take(d)) > u64::MAX {
                Option::None
            } else {
                Option::Some((Option::Some(digits_val(s.take(d)) as u64), s.skip(d)))
            }
        },
    }
}

/// Read a string body up to its closing quote, undoing the escaping of
/// [`esc_char`] and refusing what the encoder would never emit.
pub open spec fn parse_text_body(s: Seq<char>) -> Option<(Seq<char>, Seq<char>)>
    decreases s.len(),
{
    if s.len() == 0 {
        Option::None
    } else if s[0] == '"' {
        Option::Some((Seq::empty(), s.drop_first()))
    } else if s[0] == '\\' {
        if s.len() >= 2 && (s[1] == '"' || s[1] == '\\') {
            match parse_text_body(s.skip(2)) {
                Option::Some(p) => Option::Some((seq![s[1]] + p.0, p.1)),
                Option::None => Option::None,
            }
        } else {
            Option::None
        }
    } else if (s[0] as u32) < 32 {
        Option::None
    } else {
        match parse_text_body(s.drop_first()) {
            Option::Some(p) => Option::Some((seq![s[0]] + p.0, p.1)),
            Option::None => Option::None,
        }
    }
}

/// Read a text field: `null`, or a quoted, escaped string.
pub open spec fn parse_opt_text(s: Seq<char>) -> Option<(Option<Seq<char>>, Seq<char>)> {
    match expect(s, "null"@) {
        Option::Some(r) => Option::Some((Option::None, r)),
        Option::None => {
            if s.len() > 0 && s[0] == '"' {
                match parse_text_body(s.drop_first()) {
                    Option::Some(p) => Option::Some((Option::Some(p.0), p.1)),
                    Option::None => Option::None,
                }
            } else {
                Option::None
            }
        },
    }
}

/// Count of leading characters before the comma or brace that ends a bare
/// field.
pub open spec fn sep_prefix_len(s: Seq<char>) -> int
    decreases s.len(),
{
    if s.len() > 0 && s[0] != ',' && s[0] != '}' {
        1 + sep_prefix_len(s.drop_first())
    } else {
        0
    }
}

/// Read the timing field: `null`, or a bare decimal number token taken
/// verbatim.
pub open spec fn parse_opt_raw(s: Seq<char>) -> Option<(Option<Seq<char>>, Seq<char>)> {
    match expect(s, "null"@) {
        Option::Some(r) => Option::Some((Option::None, r)),
        Option::None => {
            let d = sep_prefix_len(s);
            let t = s.take(d);
            if is_number_text(t) {
                Option::Some((Option::Some(t), s.skip(d)))
            } else {
                Option::None
            }
        },
    }
}

/// Read one whole object text back into a record: the exact inverse of
/// [`spec_obj`] on everything the encoder emits, `None` on everything else.
pub open spec fn spec_decode(s: Seq<char>) -> Option<RecordView> {
    match expect(s, "{\"id\":"@) {
        Option::None => Option::None,
        Option::Some(s1) => match parse_opt_num(s1) {
            Option::None => Option::None,
            Option::Some((id, s2)) => match expect(s2, ",\"steam_id\":"@) {
                Option::None => Option::None,
                Option::Some(s3) => match parse_opt_text(s3) {
                    Option::None => Option::None,
                    Option::Some((steam_id, s4)) => match expect(s4, ",\"player_name\":"@) {
                        Option::None => Option::None,
                        Option::Some(s5) => match parse_opt_text(s5) {
                            Option::None => Option::None,
                            Option::Some((player_name, s6)) => match expect(s6, ",\"map_id\":"@) {
                                Option::None => Option::None,
                                Option::Some(s7) => match parse_opt_num(s7) {
                                    Option::None => Option::None,
                                    Option::Some((map_id, s8)) => match expect(
                                        s8,
                                        ",\"map_name\":"@,
                                    ) {
                                        Option::None => Option::None,
                                        Option::Some(s9) => match parse_opt_text(s9) {
                                            Option::None => Option::None,
                                            Option::Some((map_name, s10)) => match expect(
                                                s10,
                                                ",\"stage\":"@,
                                            ) {
                                                Option::None => Option::None,
                                                Option::Some(s11) => match parse_opt_num(s11) {
                                                    Option::None => Option::None,
                                                    Option::Some((stage, s12)) => dec_rest_mode(
                                                        RecordView {
                                                            id,
                                                            steam_id,
                                                            player_name,
                                                            map_id,
                                                            map_name,
                                                            stage,
                                                            mode: Option::None,
                                                            time: Option::None,
                                                            teleports: Option::None,
                                                            server_id: Option::None,
                                                            points: Option::None,
                                                            replay_id: Option::None,
                                                            server_name: Option::None,
                                                            created_on: Option::None,
                                                            updated_on: Option::None,
                                                        },
                                                        s12,
                                                    ),
                                                },
                                            },
                                        },
                                    },
                                },
                            },
                        },
                    },
                },
            },
        },
    }
}

/// Continue [`spec_decode`] from the `mode` field onward; `acc` carries the
/// fields already read.
pub open spec fn dec_rest_mode(acc: RecordView, s: Seq<char>) -> Option<RecordView> {
    match expect(s, ",\"mode\":"@) {
        Option::None => Option::None,
        Option::Some(s1) => match parse_opt_text(s1) {
            Option::None => Option::None,
            Option::Some((mode, s2)) => match expect(s2, ",\"time\":"@) {
                Option::None => Option::None,
                Option::Some(s3) => match parse_opt_raw(s3) {
                    Option::None => Option::None,
                    Option::Some((time, s4)) => match expect(s4, ",\"teleports\":"@) {
                        Option::None => Option::None,
                        Option::Some(s5) => match parse_opt_num(s5) {
                            Option::None => Option::None,
                            Option::Some((teleports, s6)) => match expect(s6, ",\"server_id\":"@) {
                                Option::None => Option::None,
                                Option::Some(s7) => match parse_opt_num(s7) {
                                    Option::None => Option::None,
                                    Option::Some((server_id, s8)) => match expect(
                                        s8,
                                        ",\"server_name\":"@,
                                    ) {
                                        Option::None => Option::None,
                                        Option::Some(s9) => match parse_opt_text(s9) {
                                            Option::None => Option::None,
                                            Option::Some((server_name, s10)) => dec_rest_points(
                                                RecordView {
                                                    mode,
                                                    time,
                                                    teleports,
                                                    server_id,
                                                    server_name,
                                                    ..acc
                                                },
                                                s10,
                                            ),
                                        },
                                    },
                                },
                            },
                        },
                    },
                },
            },
        },
    }
}

/// Continue [`spec_decode`] from the `points` field to the closing brace.
pub open spec fn dec_rest_points(acc: RecordView, s: Seq<char>) -> Option<RecordView> {
    match expect(s, ",\"points\":"@) {
        Option::None => Option::None,
        Option::Some(s1) => match parse_opt_num(s1) {
            Option::None => Option::None,
            Option::Some((points, s2)) => match expect(s2, ",\"replay_id\":"@) {
                Option::None => Option::None,
                Option::Some(s3) => match parse_opt_num(s3) {
                    Option::None => Option::None,
                    Option::Some((replay_id, s4)) => match expect(s4, ",\"created_on\":"@) {
                        Option::None => Option::None,
                        Option::Some(s5) => match parse_opt_text(s5) {
                            Option::None => Option::None,
                            Option::Some((created_on, s6)) => match expect(
                                s6,
                                ",\"updated_on\":"@,
                            ) {
                                Option::None => Option::None,
                                Option::Some(s7) => match parse_opt_text(s7) {
                                    Option::None => Option::None,
                                    Option::Some((updated_on, s8)) => match expect(s8, "}"@) {
                                        Option::None => Option::None,
                                        Option::Some(s9) => if s9.len() == 0 {
                                            Option::Some(
                                                RecordView {
                                                    points,
                                                    replay_id,
                                                    created_on,
                                                    updated_on,
                                                    ..acc
                                                },
                                            )
                                        } else {
                                            Option::None
                                        },
                                    },
                                },
                            },
                        },
                    },
                },
            },
        },
    }
}

// ----- the round trip --------------------------------------------------------

proof fn lemma_expect_prefix(l: Seq<char>, rest: Seq<char>)
    ensures
        expect(l + rest, l) == Option::Some(rest),
{
    assert((l + rest).take(l.len() as int) =~= l);
    assert((l + rest).skip(l.len() as int) =~= rest);
}

/// `expect`ing `null` fails on anything that starts with a digit, a quote
/// or a minus sign.
proof fn lemma_not_null(s: Seq<char>)
    requires
        s.len() > 0,
        is_digit_char(s[0]) || s[0] == '"' || s[0] == '-',
    ensures
        expect(s, "null"@) is None,
{
    reveal_strlit("null");
    if "null"@.len() <= s.len() && s.take(4) == "null"@ {
        assert(s.take(4)[0] == s[0]);
        assert(s[0] == 'n');
        assert(false);
    }
}

proof fn lemma_dec_str_digits(n: int)
    requires
        n >= 0,
    ensures
        dec_str(n).len() >= 1,
        all_digits(dec_str(n)),
        digits_val(dec_str(n)) == n,
    decreases n,
{
    if n < 10 {
        assert(dec_str(n) == seq![digit_char(n)]);
        assert(dec_str(n).take(0) =~= Seq::<char>::empty());
        assert(digits_val(Seq::<char>::empty()) == 0);
        assert(dec_str(n).last() == digit_char(n));
        assert(digit_val(digit_char(n)) == n);
        assert(digits_val(dec_str(n)) == digit_val(digit_char(n)));
    } else {
        lemma_dec_str_digits(n / 10);
        let d = dec_str(n / 10);
        assert(dec_str(n) == d.push(digit_char(n % 10)));
        assert(d.push(digit_char(n % 10)).take(d.len() as int) =~= d);
        assert(d.push(digit_char(n % 10)).last() == digit_char(n % 10));
        assert(digits_val(dec_str(n)) == n / 10 * 10 + n % 10);
        assert(forall|i: int|
            0 <= i < dec_str(n).len() ==> is_digit_char(#[trigger] dec_str(n)[i]));
    }
}

proof fn lemma_digit_prefix_concat(d: Seq<char>, rest: Seq<char>)
    requires
        all_digits(d),
        rest.len() > 0,
        !is_digit_char(rest[0]),
    ensures
        digit_prefix_len(d + rest) == d.len(),
        (d + rest).take(d.len() as int) == d,
        (d + rest).skip(d.len() as int) == rest,
    decreases d.len(),
{
    assert((d + rest).take(d.len() as int) =~= d);
    assert((d + rest).skip(d.len() as int) =~= rest);
    if d.len() == 0 {
        assert(d + rest =~= rest);
    } else {
        assert((d + rest)[0] == d[0]);
        assert((d + rest).drop_first() =~= d.drop_first() + rest);
        assert(all_digits(d.drop_first()));
        lemma_digit_prefix_concat(d.drop_first(), rest);
    }
}

/// Reading a numeric field off the front of its own encoding gives the
/// field back, whatever well-formed text follows it.
proof fn lemma_parse_opt_num_enc(o: Option<u64>, rest: Seq<char>)
    requires
        rest.len() > 0,
        rest[0] == ',' || rest[0] == '}',
    ensures
        parse_opt_num(enc_opt_num(o) + rest) == Option::Some((o, rest)),
{
    match o {
        Option::None => {
            lemma_expect_prefix("null"@, rest);
        },
        Option::Some(n) => {
            let d = dec_str(n as int);
            lemma_dec_str_digits(n as int);
            assert((d + rest)[0] == d[0]);
            lemma_not_null(d + rest);
            lemma_digit_prefix_concat(d, rest);
        },
    }
}

/// Reading a string body off its own escaped encoding gives the text back.
proof fn lemma_parse_text_body_enc(t: Seq<char>, rest: Seq<char>)
    requires
        wf_text(t),
    ensures
        parse_text_body(esc_text(t) + (seq!['"'] + rest)) == Option::Some((t, rest)),
    decreases t.len(),
{
    let s = esc_text(t) + (seq!['"'] + rest);
    if t.len() == 0 {
        assert(esc_text(t) =~= Seq::<char>::empty());
        assert(s =~= seq!['"'] + rest);
        assert(s[0] == '"');
        assert(s.drop_first() =~= rest);
        assert(parse_text_body(s) == Option::Some((Seq::<char>::empty(), rest)));
        assert(Seq::<char>::empty() =~= t);
    } else {
        let c = t[0];
        let t1 = t.drop_first();
        assert(wf_text(t1));
        assert(esc_text(t) == esc_char(c) + esc_text(t1));
        lemma_parse_text_body_enc(t1, rest);
        let s1 = esc_text(t1) + (seq!['"'] + rest);
        if c == '"' || c == '\\' {
            assert(esc_char(c) == seq!['\\', c]);
            assert(s[0] == '\\');
            assert(s[1] == c);
            assert(s.len() >= 2);
            assert(s.skip(2) =~= s1);
            assert(parse_text_body(s) == Option::Some((seq![c] + t1, rest)));
            assert(seq![c] + t1 =~= t);
        } else {
            assert(esc_char(c) == seq![c]);
            assert(s[0] == c);
            assert((c as u32) >= 32);
            assert(c != '"' && c != '\\');
            assert(s.drop_first() =~= s1);
            assert(parse_text_body(s) == Option::Some((seq![c] + t1, rest)));
            assert(seq![c] + t1 =~= t);
        }
    }
}

/// Reading a text field off the front of its own encoding gives the field
/// back.
proof fn lemma_parse_opt_text_enc(o: Option<Seq<char>>, rest: Seq<char>)
    requires
        wf_opt_text(o),
        rest.len() > 0,
        rest[0] == ',' || rest[0] == '}',
    ensures
        parse_opt_text(enc_opt_text(o) + rest) == Option::Some((o, rest)),
{
    match o {
        Option::None => {
            lemma_expect_prefix("null"@, rest);
        },
        Option::Some(t) => {
            let s = enc_opt_text(o) + rest;
            assert(s =~= seq!['"'] + (esc_text(t) + (seq!['"'] + rest)));
            assert(s[0] == '"');
            lemma_not_null(s);
            assert(s.drop_first() =~= esc_text(t) + (seq!['"'] + rest));
            lemma_parse_text_body_enc(t, rest);
        },
    }
}

proof fn lemma_sep_prefix_concat(t: Seq<char>, rest: Seq<char>)
    requires
        forall|i: int| 0 <= i < t.len() ==> t[i] != ',' && t[i] != '}',
        rest.len() > 0,
        rest[0] == ',' || rest[0] == '}',
    ensures
        sep_prefix_len(t + rest) == t.len(),
        (t + rest).take(t.len() as int) == t,
        (t + rest).skip(t.len() as int) == rest,
    decreases t.len(),
{
    assert((t + rest).take(t.len() as int) =~= t);
    assert((t + rest).skip(t.len() as int) =~= rest);
    if t.len() == 0 {
        assert(t + rest =~= rest);
    } else {
        assert((t + rest)[0] == t[0]);
        assert((t + rest).drop_first() =~= t.drop_first() + rest);
        lemma_sep_prefix_concat(t.drop_first(), rest);
    }
}

/// Every character of a decimal number token is a minus, a dot or a digit,
/// and the first is never a letter.
proof fn lemma_number_text_chars(t: Seq<char>)
    requires
        is_number_text(t),
    ensures
        t.len() > 0,
        t[0] == '-' || is_digit_char(t[0]),
        forall|i: int| 0 <= i < t.len() ==> t[i] == '-' || t[i] == '.' || is_digit_char(t[i]),
{
    let b = strip_minus(t);
    let d = digit_prefix_len(b);
    lemma_digit_prefix_chars(b);
    assert(t.len() > 0);
    assert forall|i: int| 0 <= i < t.len() implies t[i] == '-' || t[i] == '.' || is_digit_char(
        t[i],
    ) by {
        let off: int = if t[0] == '-' {
            1
        } else {
            0
        };
        if i >= off {
            assert(b[i - off] == t[i]);
            if i - off < d {
            } else if i - off == d && d < b.len() {
            } else {
                assert(b.skip(d + 1)[i - off - d - 1] == b[i - off]);
                assert(is_digit_char(b[i - off]));
            }
        }
    }
    if t[0] != '-' {
        assert(b[0] == t[0]);
    }
}

/// Reading the timing field off the front of its own encoding gives the
/// field back.
proof fn lemma_parse_opt_raw_enc(o: Option<Seq<char>>, rest: Seq<char>)
    requires
        is_number_opt(o),
        rest.len() > 0,
        rest[0] == ',' || rest[0] == '}',
    ensures
        parse_opt_raw(enc_opt_raw(o) + rest) == Option::Some((o, rest)),
{
    match o {
        Option::None => {
            lemma_expect_prefix("null"@, rest);
        },
        Option::Some(t) => {
            lemma_number_text_chars(t);
            let s = t + rest;
            assert(s[0] == t[0]);
            lemma_not_null(s);
            assert(forall|i: int| 0 <= i < t.len() ==> t[i] != ',' && t[i] != '}') by {
                assert(forall|i: int|
                    0 <= i < t.len() ==> t[i] == '-' || t[i] == '.' || is_digit_char(t[i]));
            }
            lemma_sep_prefix_concat(t, rest);
        },
    }
}

proof fn lemma_rest_points(acc: RecordView, v: RecordView)
    requires
        serializable(v),
    ensures
        dec_rest_points(acc, tail_points(v)) == Option::Some(
            RecordView {
                points: v.points,
                replay_id: v.replay_id,
                created_on: v.created_on,
                updated_on: v.updated_on,
                ..acc
            },
        ),
{
    reveal_strlit(",\"points\":");
    reveal_strlit(",\"replay_id\":");
    reveal_strlit(",\"created_on\":");
    reveal_strlit(",\"updated_on\":");
    reveal_strlit("}");

    lemma_expect_prefix(",\"points\":"@, enc_opt_num(v.points) + tail_replay_id(v));
    assert(tail_replay_id(v)[0] == ',');
    lemma_parse_opt_num_enc(v.points, tail_replay_id(v));

    lemma_expect_prefix(",\"replay_id\":"@, enc_opt_num(v.replay_id) + tail_created_on(v));
    assert(tail_created_on(v)[0] == ',');
    lemma_parse_opt_num_enc(v.replay_id, tail_created_on(v));

    lemma_expect_prefix(",\"created_on\":"@, enc_opt_text(v.created_on) + tail_updated_on(v));
    assert(tail_updated_on(v)[0] == ',');
    lemma_parse_opt_text_enc(v.created_on, tail_updated_on(v));

    lemma_expect_prefix(",\"updated_on\":"@, enc_opt_text(v.updated_on) + tail_close());
    assert(tail_close()[0] == '}');
    lemma_parse_opt_text_enc(v.updated_on, tail_close());

    assert(tail_close() =~= "}"@ + Seq::<char>::empty());
    lemma_expect_prefix("}"@, Seq::empty());
}

proof fn lemma_rest_mode(acc: RecordView, v: RecordView)
    requires
        serializable(v),
    ensures
        dec_rest_mode(acc, tail_mode(v)) == Option::Some(
            RecordView {
                mode: v.mode,
                time: v.time,
                teleports: v.teleports,
                server_id: v.server_id,
                server_name: v.server_name,
                points: v.points,
                replay_id: v.replay_id,
                created_on: v.created_on,
                updated_on: v.updated_on,
                ..acc
            },
        ),
{
    reveal_strlit(",\"mode\":");
    reveal_strlit(",\"time\":");
    reveal_strlit(",\"teleports\":");
    reveal_strlit(",\"server_id\":");
    reveal_strlit(",\"server_name\":");
    reveal_strlit(",\"points\":");

    lemma_expect_prefix(",\"mode\":"@, enc_opt_text(v.mode) + tail_time(v));
    assert(tail_time(v)[0] == ',');
    lemma_parse_opt_text_enc(v.mode, tail_time(v));

    lemma_expect_prefix(",\"time\":"@, enc_opt_raw(v.time) + tail_teleports(v));
    assert(tail_teleports(v)[0] == ',');
    lemma_parse_opt_raw_enc(v.time, tail_teleports(v));

    lemma_expect_prefix(",\"teleports\":"@, enc_opt_num(v.teleports) + tail_server_id(v));
    assert(tail_server_id(v)[0] == ',');
    lemma_parse_opt_num_enc(v.teleports, tail_server_id(v));

    lemma_expect_prefix(",\"server_id\":"@, enc_opt_num(v.server_id) + tail_server_name(v));
    assert(tail_server_name(v)[0] == ',');
    lemma_parse_opt_num_enc(v.server_id, tail_server_name(v));

    lemma_expect_prefix(",\"server_name\":"@, enc_opt_text(v.server_name) + tail_points(v));
    assert(tail_points(v)[0] == ',');
    lemma_parse_opt_text_enc(v.server_name, tail_points(v));

    lemma_rest_points(
        RecordView {
            mode: v.mode,
            time: v.time,
            teleports: v.teleports,
            server_id: v.server_id,
            server_name: v.server_name,
            ..acc
        },
        v,
    );
}

/// The round trip: everything the encoder emits, the parser reads back as
/// exactly the record it came from.
pub proof fn lemma_encode_decode_roundtrip(v: RecordView)
    requires
        serializable(v),
    ensures
        spec_decode(spec_obj(v)) == Option::Some(v),
{
    reveal_strlit("{\"id\":");
    reveal_strlit(",\"steam_id\":");
    reveal_strlit(",\"player_name\":");
    reveal_strlit(",\"map_id\":");
    reveal_strlit(",\"map_name\":");
    reveal_strlit(",\"stage\":");
    reveal_strlit(",\"mode\":");

    lemma_expect_prefix("{\"id\":"@, enc_opt_num(v.id) + tail_steam_id(v));
    assert(tail_steam_id(v)[0] == ',');
    lemma_parse_opt_num_enc(v.id, tail_steam_id(v));

    lemma_expect_prefix(",\"steam_id\":"@, enc_opt_text(v.steam_id) + tail_player_name(v));
    assert(tail_player_name(v)[0] == ',');
    lemma_parse_opt_text_enc(v.steam_id, tail_player_name(v));

    lemma_expect_prefix(",\"player_name\":"@, enc_opt_text(v.player_name) + tail_map_id(v));
    assert(tail_map_id(v)[0] == ',');
    lemma_parse_opt_text_enc(v.player_name, tail_map_id(v));

    lemma_expect_prefix(",\"map_id\":"@, enc_opt_num(v.map_id) + tail_map_name(v));
    assert(tail_map_name(v)[0] == ',');
    lemma_parse_opt_num_enc(v.map_id, tail_map_name(v));

    lemma_expect_prefix(",\"map_name\":"@, enc_opt_text(v.map_name) + tail_stage(v));
    assert(tail_stage(v)[0] == ',');
    lemma_parse_opt_text_enc(v.map_name, tail_stage(v));

    lemma_expect_prefix(",\"stage\":"@, enc_opt_num(v.stage) + tail_mode(v));
    assert(tail_mode(v)[0] == ',');
    lemma_parse_opt_num_enc(v.stage, tail_mode(v));

    let acc = RecordView {
        id: v.id,
        steam_id: v.steam_id,
        player_name: v.player_name,
        map_id: v.map_id,
        map_name: v.map_name,
        stage: v.stage,
        mode: Option::None,
        time: Option::None,
        teleports: Option::None,
        server_id: Option::None,
        points: Option::None,
        replay_id: Option::None,
        server_name: Option::None,
        created_on: Option::None,
        updated_on: Option::None,
    };
    lemma_rest_mode(acc, v);
}

// ----- the object text is one printable line ---------------------------------

proof fn lemma_wf_concat(a: Seq<char>, b: Seq<char>)
    requires
        wf_text(a),
        wf_text(b),
    ensures
        wf_text(a + b),
{
    assert forall|i: int| 0 <= i < (a + b).len() implies ((a + b)[i] as u32) >= 32 by {
        if i < a.len() {
            assert((a + b)[i] == a[i]);
        } else {
            assert((a + b)[i] == b[i - a.len()]);
        }
    }
}

proof fn lemma_wf_esc_text(s: Seq<char>)
    requires
        wf_text(s),
    ensures
        wf_text(esc_text(s)),
    decreases s.len(),
{
    if s.len() > 0 {
        assert(wf_text(s.drop_first()));
        lemma_wf_esc_text(s.drop_first());
        assert(wf_text(esc_char(s[0]))) by {
            assert(('\\' as u32) >= 32 && ('"' as u32) >= 32);
        }
        lemma_wf_concat(esc_char(s[0]), esc_text(s.drop_first()));
    }
}

proof fn lemma_wf_dec_str(n: int)
    requires
        n >= 0,
    ensures
        wf_text(dec_str(n)),
{
    lemma_dec_str_digits(n);
    assert forall|i: int| 0 <= i < dec_str(n).len() implies ((dec_str(n)[i]) as u32) >= 32 by {
        assert(is_digit_char(dec_str(n)[i]));
    }
}

proof fn lemma_wf_enc_opt_num(o: Option<u64>)
    ensures
        wf_text(enc_opt_num(o)),
{
    reveal_strlit("null");
    match o {
        Option::None => {},
        Option::Some(n) => lemma_wf_dec_str(n as int),
    }
}

proof fn lemma_wf_enc_opt_text(o: Option<Seq<char>>)
    requires
        wf_opt_text(o),
    ensures
        wf_text(enc_opt_text(o)),
{
    reveal_strlit("null");
    match o {
        Option::None => {},
        Option::Some(t) => {
            lemma_wf_esc_text(t);
            assert(wf_text(seq!['"']));
            lemma_wf_concat(esc_text(t), seq!['"']);
            lemma_wf_concat(seq!['"'], esc_text(t) + seq!['"']);
            assert(seq!['"'] + (esc_text(t) + seq!['"']) =~= seq!['"'] + esc_text(t)
                + seq!['"']);
            lemma_wf_concat(seq!['"'] + esc_text(t), seq!['"']);
            lemma_wf_concat(seq!['"'], esc_text(t));
        },
    }
}

proof fn lemma_wf_enc_opt_raw(o: Option<Seq<char>>)
    requires
        is_number_opt(o),
    ensures
        wf_text(enc_opt_raw(o)),
{
    reveal_strlit("null");
    match o {
        Option::None => {},
        Option::Some(t) => {
            lemma_number_text_chars(t);
            assert forall|i: int| 0 <= i < t.len() implies ((t[i]) as u32) >= 32 by {
                assert(t[i] == '-' || t[i] == '.' || is_digit_char(t[i]));
            }
        },
    }
}

/// The whole object text is printable: no control character, hence no line
/// break, stands anywhere in it.
pub proof fn lemma_obj_printable(v: RecordView)
    requires
        serializable(v),
    ensures
        wf_text(spec_obj(v)),
{
    reveal_strlit("{\"id\":");
    reveal_strlit(",\"steam_id\":");
    reveal_strlit(",\"player_name\":");
    reveal_strlit(",\"map_id\":");
    reveal_strlit(",\"map_name\":");
    reveal_strlit(",\"stage\":");
    reveal_strlit(",\"mode\":");
    reveal_strlit(",\"time\":");
    reveal_strlit(",\"teleports\":");
    reveal_strlit(",\"server_id\":");
    reveal_strlit(",\"server_name\":");
    reveal_strlit(",\"points\":");
    reveal_strlit(",\"replay_id\":");
    reveal_strlit(",\"created_on\":");
    reveal_strlit(",\"updated_on\":");
    reveal_strlit("}");

    lemma_wf_enc_opt_num(v.id);
    lemma_wf_enc_opt_num(v.map_id);
    lemma_wf_enc_opt_num(v.stage);
    lemma_wf_enc_opt_num(v.teleports);
    lemma_wf_enc_opt_num(v.server_id);
    lemma_wf_enc_opt_num(v.points);
    lemma_wf_enc_opt_num(v.replay_id);
    lemma_wf_enc_opt_text(v.steam_id);
    lemma_wf_enc_opt_text(v.player_name);
    lemma_wf_enc_opt_text(v.map_name);
    lemma_wf_enc_opt_text(v.mode);
    lemma_wf_enc_opt_text(v.server_name);
    lemma_wf_enc_opt_text(v.created_on);
    lemma_wf_enc_opt_text(v.updated_on);
    lemma_wf_enc_opt_raw(v.time);

    lemma_wf_concat(enc_opt_text(v.updated_on), tail_close());
    lemma_wf_concat(",\"updated_on\":"@, enc_opt_text(v.updated_on) + tail_close());
    lemma_wf_concat(enc_opt_text(v.created_on), tail_updated_on(v));
    lemma_wf_concat(",\"created_on\":"@, enc_opt_text(v.created_on) + tail_updated_on(v));
    lemma_wf_concat(enc_opt_num(v.replay_id), tail_created_on(v));
    lemma_wf_concat(",\"replay_id\":"@, enc_opt_num(v.replay_id) + tail_created_on(v));
    lemma_wf_concat(enc_opt_num(v.points), tail_replay_id(v));
    lemma_wf_concat(",\"points\":"@, enc_opt_num(v.points) + tail_replay_id(v));
    lemma_wf_concat(enc_opt_text(v.server_name), tail_points(v));
    lemma_wf_concat(",\"server_name\":"@, enc_opt_text(v.server_name) + tail_points(v));
    lemma_wf_concat(enc_opt_num(v.server_id), tail_server_name(v));
    lemma_wf_concat(",\"server_id\":"@, enc_opt_num(v.server_id) + tail_server_name(v));
    lemma_wf_concat(enc_opt_num(v.teleports), tail_server_id(v));
    lemma_wf_concat(",\"teleports\":"@, enc_opt_num(v.teleports) + tail_server_id(v));
    lemma_wf_concat(enc_opt_raw(v.time), tail_teleports(v));
    lemma_wf_concat(",\"time\":"@, enc_opt_raw(v.time) + tail_teleports(v));
    lemma_wf_concat(enc_opt_text(v.mode), tail_time(v));
    lemma_wf_concat(",\"mode\":"@, enc_opt_text(v.mode) + tail_time(v));
    lemma_wf_concat(enc_opt_num(v.stage), tail_mode(v));
    lemma_wf_concat(",\"stage\":"@, enc_opt_num(v.stage) + tail_mode(v));
    lemma_wf_concat(enc_opt_text(v.map_name), tail_stage(v));
    lemma_wf_concat(",\"map_name\":"@, enc_opt_text(v.map_name) + tail_stage(v));
    lemma_wf_concat(enc_opt_num(v.map_id), tail_map_name(v));
    lemma_wf_concat(",\"map_id\":"@, enc_opt_num(v.map_id) + tail_map_name(v));
    lemma_wf_concat(enc_opt_text(v.player_name), tail_map_id(v));
    lemma_wf_concat(",\"player_name\":"@, enc_opt_text(v.player_name) + tail_map_id(v));
    lemma_wf_concat(enc_opt_text(v.steam_id), tail_player_name(v));
    lemma_wf_concat(",\"steam_id\":"@, enc_opt_text(v.steam_id) + tail_player_name(v));
    lemma_wf_concat(enc_opt_num(v.id), tail_steam_id(v));
    lemma_wf_concat("{\"id\":"@, enc_opt_num(v.id) + tail_steam_id(v));
}

// ----- decoding, executable ---------------------------------------------------

proof fn lemma_digits_val_extend(s: Seq<char>, m: int)
    requires
        0 <= m < s.len(),
    ensures
        digits_val(s.take(m + 1)) == digits_val(s.take(m)) * 10 + digit_val(s[m]),
{
    assert(s.take(m + 1).take(m) =~= s.take(m));
    assert(s.take(m + 1).last() == s[m]);
}

proof fn lemma_digits_val_nonneg(s: Seq<char>)
    requires
        all_digits(s),
    ensures
        digits_val(s) >= 0,
    decreases s.len(),
{
    if s.len() > 0 {
        assert(all_digits(s.take(s.len() - 1)));
        lemma_digits_val_nonneg(s.take(s.len() - 1));
        assert(is_digit_char(s.last()));
    }
}

proof fn lemma_digits_val_prefix_le(s: Seq<char>, m: int)
    requires
        all_digits(s),
        0 <= m <= s.len(),
    ensures
        digits_val(s.take(m)) <= digits_val(s),
    decreases s.len() - m,
{
    if m == s.len() {
        assert(s.take(m) =~= s);
    } else {
        lemma_digits_val_extend(s, m);
        assert(all_digits(s.take(m)));
        lemma_digits_val_nonneg(s.take(m));
        assert(is_digit_char(s[m]));
        lemma_digits_val_prefix_le(s, m + 1);
    }
}

/// Strip the literal at position `i` of `s`; on success the result is the
/// position right behind it.
fn expect_at(s: &[char], i: usize, lit: &str) -> (r: Option<usize>)
    requires
        i <= s@.len(),
    ensures
        match r {
            Option::Some(j) => i <= j <= s@.len() && expect(s@.skip(i as int), lit@)
                == Option::Some(s@.skip(j as int)),
            Option::None => expect(s@.skip(i as int), lit@) is None,
        },
{
    let slen = s.len();
    let n = lit.unicode_len();
    if n > slen - i {
        return Option::None;
    }
    let mut k: usize = 0;
    while k < n
        invariant
            k <= n,
            slen == s@.len(),
            i + n <= slen,
            n == lit@.len(),
            forall|m: int| 0 <= m < k ==> s@[i + m] == lit@[m],
        decreases n - k,
    {
        let c = lit.get_char(k);
        if s[i + k] != c {
            proof {
                assert(s@.skip(i as int).take(n as int)[k as int] == s@[i + k]);
            }
            return Option::None;
        }
        k = k + 1;
    }
    proof {
        assert(s@.skip(i as int).take(n as int) =~= lit@);
        assert(s@.skip(i as int).skip(n as int) =~= s@.skip(i + n));
    }
    Option::Some(i + n)
}

/// Read a numeric field at position `i`, exactly as [`parse_opt_num`] does
/// on the rest of the text.
fn parse_num_at(s: &[char], i: usize) -> (r: Option<(Option<u64>, usize)>)
    requires
        i <= s@.len(),
    ensures
        match r {
            Option::Some(p) => i <= p.1 <= s@.len() && parse_opt_num(s@.skip(i as int))
                == Option::Some((p.0, s@.skip(p.1 as int))),
            Option::None => parse_opt_num(s@.skip(i as int)) is None,
        },
{
    match expect_at(s, i, "null") {
        Option::Some(j) => {
            return Option::Some((Option::None, j));
        },
        Option::None => {},
    }
    let n = s.len();
    let mut j: usize = i;
    loop
        invariant
            i <= j <= n,
            n == s@.len(),
            forall|m: int| i <= m < j ==> is_digit_char(s@[m]),
        ensures
            i <= j <= n,
            forall|m: int| i <= m < j ==> is_digit_char(s@[m]),
            j < n ==> !is_digit_char(s@[j as int]),
        decreases n - j,
    {
        if j >= n {
            break;
        }
        let c = s[j];
        if !(48 <= c as u32 && c as u32 <= 57) {
            break;
        }
        j = j + 1;
    }
    let ghost pre = s@.skip(i as int);
    let ghost dseq = pre.take(j - i);
    proof {
        assert(forall|m: int| 0 <= m < pre.len() ==> pre[m] == s@[m + i]);
        assert(forall|m: int| 0 <= m < j - i ==> is_digit_char(#[trigger] pre[m]));
        lemma_digit_prefix_is(pre, j - i);
        assert(all_digits(dseq));
    }
    if j == i {
        return Option::None;
    }
    let mut acc: u64 = 0;
    let mut k: usize = i;
    while k < j
        invariant
            i <= k <= j <= n,
            n == s@.len(),
            pre == s@.skip(i as int),
            dseq == pre.take(j - i),
            all_digits(dseq),
            digit_prefix_len(pre) == j - i,
            expect(s@.skip(i as int), "null"@) is None,
            j > i,
            forall|m: int| i <= m < j ==> is_digit_char(s@[m]),
            acc == digits_val(dseq.take(k - i)),
        decreases j - k,
    {
        let c = s[k];
        let d64: u64 = (c as u32 - 48) as u64;
        proof {
            assert(dseq[k - i] == s@[k as int]);
            assert(is_digit_char(s@[k as int]));
            lemma_digits_val_extend(dseq, k - i);
            assert(digit_val(dseq[k - i]) == d64);
        }
        if acc > 1844674407370955161 || (acc == 1844674407370955161 && d64 > 5) {
            proof {
                assert(digits_val(dseq.take(k - i + 1)) > u64::MAX);
                lemma_digits_val_prefix_le(dseq, k - i + 1);
                assert(dseq.take(dseq.len() as int) =~= dseq);
                assert(digits_val(dseq) > u64::MAX);
            }
            return Option::None;
        }
        acc = acc * 10 + d64;
        k = k + 1;
    }
    proof {
        assert(dseq.take(j - i) =~= dseq);
        assert(digits_val(dseq) == acc);
        assert(pre.skip(j - i) =~= s@.skip(j as int));
    }
    Option::Some((Option::Some(acc), j))
}

/// Read a quoted string body at position `i`, exactly as
/// [`parse_text_body`] does.
fn parse_body_at(s: &[char], i: usize) -> (r: Option<(Vec<char>, usize)>)
    requires
        i <= s@.len(),
    ensures
        match r {
            Option::Some(p) => i <= p.1 <= s@.len() && parse_text_body(s@.skip(i as int))
                == Option::Some((p.0@, s@.skip(p.1 as int))),
            Option::None => parse_text_body(s@.skip(i as int)) is None,
        },
{
    let n = s.len();
    let mut acc: Vec<char> = Vec::new();
    let mut j: usize = i;
    loop
        invariant
            i <= j <= n,
            n == s@.len(),
            parse_text_body(s@.skip(j as int)) is Some ==> parse_text_body(s@.skip(i as int))
                == Option::Some(
                (
                    acc@ + parse_text_body(s@.skip(j as int))->Some_0.0,
                    parse_text_body(s@.skip(j as int))->Some_0.1,
                ),
            ),
            parse_text_body(s@.skip(j as int)) is None ==> parse_text_body(s@.skip(i as int))
                is None,
        decreases n - j,
    {
        if j >= n {
            proof {
                assert(s@.skip(j as int).len() == 0);
            }
            return Option::None;
        }
        let c = s[j];
        proof {
            assert(s@.skip(j as int)[0] == s@[j as int]);
        }
        if c == '"' {
            proof {
                assert(s@.skip(j as int).drop_first() =~= s@.skip(j + 1));
                assert(parse_text_body(s@.skip(j as int)) == Option::Some(
                    (Seq::<char>::empty(), s@.skip(j + 1)),
                ));
                assert(acc@ + Seq::<char>::empty() =~= acc@);
            }
            return Option::Some((acc, j + 1));
        } else if c == '\\' {
            if j + 1 >= n {
                proof {
                    assert(s@.skip(j as int).len() < 2);
                }
                return Option::None;
            }
            let c2 = s[j + 1];
            proof {
                assert(s@.skip(j as int)[1] == s@[j + 1]);
            }
            if c2 != '"' && c2 != '\\' {
                return Option::None;
            }
            acc.push(c2);
            proof {
                assert(s@.skip(j as int).skip(2) =~= s@.skip(j + 2));
                if parse_text_body(s@.skip(j + 2)) is Some {
                    let q = parse_text_body(s@.skip(j + 2))->Some_0;
                    assert(parse_text_body(s@.skip(j as int)) == Option::Some(
                        (seq![c2] + q.0, q.1),
                    ));
                    assert(acc@ + q.0 =~= acc@.take(acc@.len() - 1) + (seq![c2] + q.0));
                }
            }
            j = j + 2;
        } else if (c as u32) < 32 {
            return Option::None;
        } else {
            acc.push(c);
            proof {
                assert(s@.skip(j as int).drop_first() =~= s@.skip(j + 1));
                if parse_text_body(s@.skip(j + 1)) is Some {
                    let q = parse_text_body(s@.skip(j + 1))->Some_0;
                    assert(parse_text_body(s@.skip(j as int)) == Option::Some(
                        (seq![c] + q.0, q.1),
                    ));
                    assert(acc@ + q.0 =~= acc@.take(acc@.len() - 1) + (seq![c] + q.0));
                }
            }
            j = j + 1;
        }
    }
}

/// Read a text field at position `i`, exactly as [`parse_opt_text`] does.
fn parse_text_at(s: &[char], i: usize) -> (r: Option<(Option<Vec<char>>, usize)>)
    requires
        i <= s@.len(),
    ensures
        match r {
            Option::Some(p) => i <= p.1 <= s@.len() && parse_opt_text(s@.skip(i as int))
                == Option::Some((opt_text_view(p.0), s@.skip(p.1 as int))),
            Option::None => parse_opt_text(s@.skip(i as int)) is None,
        },
{
    match expect_at(s, i, "null") {
        Option::Some(j) => {
            return Option::Some((Option::None, j));
        },
        Option::None => {},
    }
    if i >= s.len() {
        return Option::None;
    }
    let c = s[i];
    proof {
        assert(s@.skip(i as int)[0] == s@[i as int]);
    }
    if c != '"' {
        return Option::None;
    }
    proof {
        assert(s@.skip(i as int).drop_first() =~= s@.skip(i + 1));
    }
    match parse_body_at(s, i + 1) {
        Option::None => Option::None,
        Option::Some((t, j)) => Option::Some((Option::Some(t), j)),
    }
}

/// Read the timing field at position `i`, exactly as [`parse_opt_raw`]
/// does.
fn parse_raw_at(s: &[char], i: usize) -> (r: Option<(Option<Vec<char>>, usize)>)
    requires
        i <= s@.len(),
    ensures
        match r {
            Option::Some(p) => i <= p.1 <= s@.len() && parse_opt_raw(s@.skip(i as int))
                == Option::Some((opt_text_view(p.0), s@.skip(p.1 as int))),
            Option::None => parse_opt_raw(s@.skip(i as int)) is None,
        },
{
    match expect_at(s, i, "null") {
        Option::Some(j) => {
            return Option::Some((Option::None, j));
        },
        Option::None => {},
    }
    let n = s.len();
    let mut j: usize = i;
    let mut t: Vec<char> = Vec::new();
    loop
        invariant
            i <= j <= n,
            n == s@.len(),
            t@ == s@.skip(i as int).take(j - i),
            forall|m: int| i <= m < j ==> s@[m] != ',' && s@[m] != '}',
        ensures
            i <= j <= n,
            t@ == s@.skip(i as int).take(j - i),
            forall|m: int| i <= m < j ==> s@[m] != ',' && s@[m] != '}',
            j < n ==> (s@[j as int] == ',' || s@[j as int] == '}'),
        decreases n - j,
    {
        if j >= n {
            break;
        }
        let c = s[j];
        if c == ',' || c == '}' {
            break;
        }
        t.push(c);
        proof {
            assert(s@.skip(i as int)[j - i] == s@[j as int]);
            assert(t@ =~= s@.skip(i as int).take(j - i + 1));
        }
        j = j + 1;
    }
    proof {
        let pre = s@.skip(i as int);
        assert(forall|m: int| 0 <= m < j - i ==> #[trigger] pre[m] == s@[m + i]);
        if j < n {
            assert(pre[j - i] == s@[j as int]);
        }
        lemma_sep_prefix_is(pre, j - i);
        assert(pre.skip(j - i) =~= s@.skip(j as int));
    }
    if !number_text_check(&t) {
        return Option::None;
    }
    Option::Some((Option::Some(t), j))
}

proof fn lemma_sep_prefix_chars(s: Seq<char>)
    ensures
        0 <= sep_prefix_len(s) <= s.len(),
        forall|j: int| 0 <= j < sep_prefix_len(s) ==> s[j] != ',' && s[j] != '}',
        sep_prefix_len(s) < s.len() ==> (s[sep_prefix_len(s)] == ',' || s[sep_prefix_len(s)]
            == '}'),
    decreases s.len(),
{
    if s.len() > 0 && s[0] != ',' && s[0] != '}' {
        lemma_sep_prefix_chars(s.drop_first());
        assert forall|j: int| 0 <= j < sep_prefix_len(s) implies s[j] != ',' && s[j] != '}' by {
            if j > 0 {
                assert(s.drop_first()[j - 1] == s[j]);
            }
        }
    }
}

proof fn lemma_sep_prefix_is(s: Seq<char>, k: int)
    requires
        0 <= k <= s.len(),
        forall|j: int| 0 <= j < k ==> s[j] != ',' && s[j] != '}',
        k < s.len() ==> (s[k] == ',' || s[k] == '}'),
    ensures
        sep_prefix_len(s) == k,
{
    lemma_sep_prefix_chars(s);
}

/// Read one whole object text back into a record: the executable twin of
/// [`spec_decode`], agreeing with it on every input.
#[verifier::rlimit(100)]
pub fn decode_record(s: &[char]) -> (res: Option<Record>)
    ensures
        res is Some <==> spec_decode(s@) is Some,
        match res {
            Option::Some(r) => spec_decode(s@) == Option::Some(r@),
            Option::None => true,
        },
{
    proof {
        assert(s@.skip(0) =~= s@);
    }
    let i0 = match expect_at(s, 0, "{\"id\":") {
        Option::None => return Option::None,
        Option::Some(i) => i,
    };
    let (id, i1) = match parse_num_at(s, i0) {
        Option::None => return Option::None,
        Option::Some(p) => p,
    };
    let i2 = match expect_at(s, i1, ",\"steam_id\":") {
        Option::None => return Option::None,
        Option::Some(i) => i,
    };
    let (steam_id, i3) = match parse_text_at(s, i2) {
        Option::None => return Option::None,
        Option::Some(p) => p,
    };
    let i4 = match expect_at(s, i3, ",\"player_name\":") {
        Option::None => return Option::None,
        Option::Some(i) => i,
    };
    let (player_name, i5) = match parse_text_at(s, i4) {
        Option::None => return Option::None,
        Option::Some(p) => p,
    };
    let i6 = match expect_at(s, i5, ",\"map_id\":") {
        Option::None => return Option::None,
        Option::Some(i) => i,
    };
    let (map_id, i7) = match parse_num_at(s, i6) {
        Option::None => return Option::None,
        Option::Some(p) => p,
    };
    let i8 = match expect_at(s, i7, ",\"map_name\":") {
        Option::None => return Option::None,
        Option::Some(i) => i,
    };
    let (map_name, i9) = match parse_text_at(s, i8) {
        Option::None => return Option::None,
        Option::Some(p) => p,
    };
    let i10 = match expect_at(s, i9, ",\"stage\":") {
        Option::None => return Option::None,
        Option::Some(i) => i,
    };
    let (stage, i11) = match parse_num_at(s, i10) {
        Option::None => return Option::None,
        Option::Some(p) => p,
    };
    let i12 = match expect_at(s, i11, ",\"mode\":") {
        Option::None => return Option::None,
        Option::Some(i) => i,
    };
    let (mode, i13) = match parse_text_at(s, i12) {
        Option::None => return Option::None,
        Option::Some(p) => p,
    };
    let i14 = match expect_at(s, i13, ",\"time\":") {
        Option::None => return Option::None,
        Option::Some(i) => i,
    };
    let (time, i15) = match parse_raw_at(s, i14) {
        Option::None => return Option::None,
        Option::Some(p) => p,
    };
    let i16 = match expect_at(s, i15, ",\"teleports\":") {
        Option::None => return Option::None,
        Option::Some(i) => i,
    };
    let (teleports, i17) = match parse_num_at(s, i16) {
        Option::None => return Option::None,
        Option::Some(p) => p,
    };
    let i18 = match expect_at(s, i17, ",\"server_id\":") {
        Option::None => return Option::None,
        Option::Some(i) => i,
    };
    let (server_id, i19) = match parse_num_at(s, i18) {
        Option::None => return Option::None,
        Option::Some(p) => p,
    };
    let i20 = match expect_at(s, i19, ",\"server_name\":") {
        Option::None => return Option::None,
        Option::Some(i) => i,
    };
    let (server_name, i21) = match parse_text_at(s, i20) {
        Option::None => return Option::None,
        Option::Some(p) => p,
    };
    let i22 = match expect_at(s, i21, ",\"points\":") {
        Option::None => return Option::None,
        Option::Some(i) => i,
    };
    let (points, i23) = match parse_num_at(s, i22) {
        Option::None => return Option::None,
        Option::Some(p) => p,
    };
    let i24 = match expect_at(s, i23, ",\"replay_id\":") {
        Option::None => return Option::None,
        Option::Some(i) => i,
    };
    let (replay_id, i25) = match parse_num_at(s, i24) {
        Option::None => return Option::None,
        Option::Some(p) => p,
    };
    let i26 = match expect_at(s, i25, ",\"created_on\":") {
        Option::None => return Option::None,
        Option::Some(i) => i,
    };
    let (created_on, i27) = match parse_text_at(s, i26) {
        Option::None => return Option::None,
        Option::Some(p) => p,
    };
    let i28 = match expect_at(s, i27, ",\"updated_on\":") {
        Option::None => return Option::None,
        Option::Some(i) => i,
    };
    let (updated_on, i29) = match parse_text_at(s, i28) {
        Option::None => return Option::None,
        Option::Some(p) => p,
    };
    let i30 = match expect_at(s, i29, "}") {
        Option::None => return Option::None,
        Option::Some(i) => i,
    };
    if i30 != s.len() {
        proof {
            assert(s@.skip(i30 as int).len() > 0);
        }
        return Option::None;
    }
    Option::Some(
        Record {
            id,
            steam_id,
            player_name,
            map_id,
            map_name,
            stage,
            mode,
            time,
            teleports,
            server_id,
            server_name,
            points,
            replay_id,
            created_on,
            updated_on,
        },
    )
}

} // verus!
