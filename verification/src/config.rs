//! The settings file:
//!
//! ```text
//! max_temp = 80                          # fans go to 100 % at this GPU temperature
//! curve = 40:30, 55:40, 65:60, 80:100    # a custom curve, or `auto` (the default)
//! custom_curve = 40:30, 55:40, 80:100    # with `curve = auto`: the custom curve, remembered
//! ```
//!
//! Curve points are whole numbers: `temperature:duty` in °C and percent.

use vstd::prelude::*;
use crate::text::{
    before, chars_equal, chars_of, copy_range, decimal, find_char, is_whitespace,
    is_whitespace_char, lemma_find_from, lines, parse_u32, parse_u32_chars, push_chars,
    push_decimal, push_str, split_once, string_of, strip_cr, trim, trim_chars,
};

verus! {

pub const DEFAULT_MAX_TEMP: u32 = 80;
/// Lowest and highest accepted max temp, in °C.
pub const MAX_TEMP_LOW: u32 = 60;
pub const MAX_TEMP_HIGH: u32 = 90;
/// Lowest duty ever used, in percent. Fans are never stopped.
pub const FLOOR_DUTY: u32 = 30;
/// Limits for custom curves: number of points and temperatures in °C.
pub const CUSTOM_POINTS_LOW: usize = 2;
pub const CUSTOM_POINTS_HIGH: usize = 16;
pub const CUSTOM_TEMP_LOW: u32 = 20;
pub const CUSTOM_TEMP_HIGH: u32 = 100;

// ----- model -----

/// A curve as the settings describe it.
pub enum CurveModel {
    Auto,
    Custom(Seq<(u32, u32)>),
}

pub struct ConfigModel {
    pub max_temp: u32,
    pub curve: CurveModel,
    pub remembered_custom: Option<Seq<(u32, u32)>>,
}

/// The active fan curve.
#[derive(Clone, Debug, PartialEq)]
pub enum Curve {
    /// The built-in curve, scaled so 100 % is reached at max temp.
    Auto,
    /// User-defined (temperature °C, duty %) points; see `Curve::custom`.
    Custom(Vec<(u32, u32)>),
}

impl View for Curve {
    type V = CurveModel;

    open spec fn view(&self) -> CurveModel {
        match self {
            Curve::Auto => CurveModel::Auto,
            Curve::Custom(p) => CurveModel::Custom(p@),
        }
    }
}

#[derive(Clone, Debug, PartialEq)]
pub struct Config {
    pub max_temp: u32,
    /// The curve in use.
    pub curve: Curve,
    /// While `curve` is Auto: the user's custom curve, kept so switching back restores it.
    /// Always `None` while a custom curve is in use (it is then `curve` itself).
    pub remembered_custom: Option<Vec<(u32, u32)>>,
}

pub open spec fn opt_points(o: Option<Vec<(u32, u32)>>) -> Option<Seq<(u32, u32)>> {
    match o {
        Some(v) => Some(v@),
        None => None,
    }
}

impl View for Config {
    type V = ConfigModel;

    open spec fn view(&self) -> ConfigModel {
        ConfigModel {
            max_temp: self.max_temp,
            curve: self.curve@,
            remembered_custom: opt_points(self.remembered_custom),
        }
    }
}

pub open spec fn default_model() -> ConfigModel {
    ConfigModel { max_temp: DEFAULT_MAX_TEMP, curve: CurveModel::Auto, remembered_custom: None }
}

impl Default for Config {
    fn default() -> (c: Self)
        ensures
            c@ == default_model(),
    {
        Config { max_temp: DEFAULT_MAX_TEMP, curve: Curve::Auto, remembered_custom: None }
    }
}

/// An exec result and a spec result agree: same value, or an error with the same text.
pub open spec fn agrees<T>(r: Result<T, String>, s: Result<T, Seq<char>>) -> bool {
    match (r, s) {
        (Ok(a), Ok(b)) => a == b,
        (Err(e), Err(m)) => e@ == m,
        _ => false,
    }
}

// ----- custom curve rules -----

/// The rules for a custom curve: 2-16 points, temperatures 20-100 °C and strictly rising,
/// duty 30-100 % and never falling.
pub open spec fn valid_points(p: Seq<(u32, u32)>) -> bool {
    &&& CUSTOM_POINTS_LOW <= p.len() <= CUSTOM_POINTS_HIGH
    &&& forall|i: int|
        0 <= i < p.len() ==> CUSTOM_TEMP_LOW <= #[trigger] p[i].0 <= CUSTOM_TEMP_HIGH && FLOOR_DUTY
            <= p[i].1 <= 100
    &&& forall|i: int| 0 <= i < p.len() - 1 ==> #[trigger] p[i].0 < p[i + 1].0 && p[i].1 <= p[i + 1].1
}

/// The first point outside the allowed ranges, checked from index `i`, as an error message.
pub open spec fn range_error(p: Seq<(u32, u32)>, i: int) -> Option<Seq<char>>
    decreases p.len() - i,
{
    if i < 0 || i >= p.len() {
        None
    } else if !(CUSTOM_TEMP_LOW <= p[i].0 <= CUSTOM_TEMP_HIGH) {
        Some("temperature "@ + decimal(p[i].0 as nat) + " °C is outside 20..=100 °C"@)
    } else if !(FLOOR_DUTY <= p[i].1 <= 100) {
        Some("duty "@ + decimal(p[i].1 as nat) + " % is outside 30..=100 %"@)
    } else {
        range_error(p, i + 1)
    }
}

/// The first pair of neighbours out of order, checked from index `i`, as an error message.
pub open spec fn order_error(p: Seq<(u32, u32)>, i: int) -> Option<Seq<char>>
    decreases p.len() - i,
{
    if i < 0 || i + 1 >= p.len() {
        None
    } else if p[i + 1].0 <= p[i].0 {
        Some(
            "temperatures must rise: "@ + decimal(p[i + 1].0 as nat) + " °C follows "@ + decimal(
                p[i].0 as nat,
            ) + " °C"@,
        )
    } else if p[i + 1].1 < p[i].1 {
        Some(
            "duty must not fall: "@ + decimal(p[i + 1].1 as nat) + " % at "@ + decimal(
                p[i + 1].0 as nat,
            ) + " °C follows "@ + decimal(p[i].1 as nat) + " % at "@ + decimal(p[i].0 as nat)
                + " °C"@,
        )
    } else {
        order_error(p, i + 1)
    }
}

/// Why points are not a valid custom curve: the count first, then the ranges point by point,
/// then the order.
pub open spec fn custom_error(p: Seq<(u32, u32)>) -> Option<Seq<char>> {
    if p.len() < CUSTOM_POINTS_LOW || p.len() > CUSTOM_POINTS_HIGH {
        Some("a curve needs 2 to 16 points, got "@ + decimal(p.len()))
    } else if range_error(p, 0) is Some {
        range_error(p, 0)
    } else {
        order_error(p, 0)
    }
}

proof fn lemma_range_error(p: Seq<(u32, u32)>, i: int)
    requires
        0 <= i <= p.len(),
    ensures
        range_error(p, i) is None <==> forall|k: int|
            i <= k < p.len() ==> CUSTOM_TEMP_LOW <= #[trigger] p[k].0 <= CUSTOM_TEMP_HIGH
                && FLOOR_DUTY <= p[k].1 <= 100,
    decreases p.len() - i,
{
    if i < p.len() {
        lemma_range_error(p, i + 1);
    }
}

proof fn lemma_order_error(p: Seq<(u32, u32)>, i: int)
    requires
        0 <= i <= p.len(),
    ensures
        order_error(p, i) is None <==> forall|k: int|
            i <= k < p.len() - 1 ==> #[trigger] p[k].0 < p[k + 1].0 && p[k].1 <= p[k + 1].1,
    decreases p.len() - i,
{
    if i + 1 < p.len() {
        lemma_order_error(p, i + 1);
    }
}

/// No error exactly when the rules hold.
pub proof fn lemma_custom_error_iff_invalid(p: Seq<(u32, u32)>)
    ensures
        custom_error(p) is None <==> valid_points(p),
{
    lemma_range_error(p, 0);
    lemma_order_error(p, 0);
}

fn push_u32(s: &mut String, n: u32)
    ensures
        final(s)@ == old(s)@ + decimal(n as nat),
{
    push_decimal(s, n as u128);
}

impl Curve {
    /// Validates user-defined points: 2-16 points, temperatures 20-100 °C and strictly rising,
    /// duty 30-100 % and never falling.
    pub fn custom(points: Vec<(u32, u32)>) -> (r: Result<Curve, String>)
        ensures
            match custom_error(points@) {
                None => r == Ok::<Curve, String>(Curve::Custom(points)),
                Some(m) => r matches Err(e) && e@ == m,
            },
    {
        let n = points.len();
        if n < CUSTOM_POINTS_LOW || n > CUSTOM_POINTS_HIGH {
            let mut m = String::new();
            push_str(&mut m, "a curve needs 2 to 16 points, got ");
            push_decimal(&mut m, n as u128);
            assert(m@ =~= "a curve needs 2 to 16 points, got "@ + decimal(n as nat));
            return Err(m);
        }
        let mut i: usize = 0;
        while i < n
            invariant
                n == points.len(),
                CUSTOM_POINTS_LOW <= n <= CUSTOM_POINTS_HIGH,
                i <= n,
                range_error(points@, 0) == range_error(points@, i as int),
            decreases n - i,
        {
            let (temp, duty) = points[i];
            if !(CUSTOM_TEMP_LOW <= temp && temp <= CUSTOM_TEMP_HIGH) {
                let mut m = String::new();
                push_str(&mut m, "temperature ");
                push_u32(&mut m, temp);
                push_str(&mut m, " °C is outside 20..=100 °C");
                assert(m@ =~= "temperature "@ + decimal(temp as nat) + " °C is outside 20..=100 °C"@);
                return Err(m);
            }
            if !(FLOOR_DUTY <= duty && duty <= 100) {
                let mut m = String::new();
                push_str(&mut m, "duty ");
                push_u32(&mut m, duty);
                push_str(&mut m, " % is outside 30..=100 %");
                assert(m@ =~= "duty "@ + decimal(duty as nat) + " % is outside 30..=100 %"@);
                return Err(m);
            }
            i = i + 1;
        }
        let mut i: usize = 0;
        while i + 1 < n
            invariant
                n == points.len(),
                CUSTOM_POINTS_LOW <= n <= CUSTOM_POINTS_HIGH,
                i + 1 <= n,
                range_error(points@, 0) is None,
                order_error(points@, 0) == order_error(points@, i as int),
            decreases n - i,
        {
            let (t0, d0) = points[i];
            let (t1, d1) = points[i + 1];
            if t1 <= t0 {
                let mut m = String::new();
                push_str(&mut m, "temperatures must rise: ");
                push_u32(&mut m, t1);
                push_str(&mut m, " °C follows ");
                push_u32(&mut m, t0);
                push_str(&mut m, " °C");
                assert(m@ =~= "temperatures must rise: "@ + decimal(t1 as nat) + " °C follows "@
                    + decimal(t0 as nat) + " °C"@);
                return Err(m);
            }
            if d1 < d0 {
                let mut m = String::new();
                push_str(&mut m, "duty must not fall: ");
                push_u32(&mut m, d1);
                push_str(&mut m, " % at ");
                push_u32(&mut m, t1);
                push_str(&mut m, " °C follows ");
                push_u32(&mut m, d0);
                push_str(&mut m, " % at ");
                push_u32(&mut m, t0);
                push_str(&mut m, " °C");
                assert(m@ =~= "duty must not fall: "@ + decimal(d1 as nat) + " % at "@ + decimal(
                    t1 as nat,
                ) + " °C follows "@ + decimal(d0 as nat) + " % at "@ + decimal(t0 as nat)
                    + " °C"@);
                return Err(m);
            }
            i = i + 1;
        }
        Ok(Curve::Custom(points))
    }
}


// ----- curves as text -----

/// Points are separated by commas and/or whitespace.
pub open spec fn is_separator(c: char) -> bool {
    c == ',' || is_whitespace(c)
}

/// Index of the first separator at or after `i`, or the length if there is none.
pub open spec fn find_separator(s: Seq<char>, i: int) -> int
    decreases s.len() - i,
{
    if i < 0 || i >= s.len() {
        s.len() as int
    } else if is_separator(s[i]) {
        i
    } else {
        find_separator(s, i + 1)
    }
}

pub proof fn lemma_find_separator_is(s: Seq<char>, i: int, j: int)
    requires
        0 <= i <= j <= s.len(),
        forall|k: int| i <= k < j ==> !is_separator(s[k]),
        j == s.len() || is_separator(s[j]),
    ensures
        find_separator(s, i) == j,
    decreases j - i,
{
    if i < j {
        lemma_find_separator_is(s, i + 1, j);
    }
}

pub proof fn lemma_find_separator(s: Seq<char>, i: int)
    requires
        0 <= i <= s.len(),
    ensures
        i <= find_separator(s, i) <= s.len(),
        forall|k: int| i <= k < find_separator(s, i) ==> !is_separator(s[k]),
        find_separator(s, i) < s.len() ==> is_separator(s[find_separator(s, i)]),
    decreases s.len() - i,
{
    if i < s.len() && !is_separator(s[i]) {
        lemma_find_separator(s, i + 1);
    }
}

/// The non-empty runs of characters between separators, in order.
pub open spec fn tokens(s: Seq<char>) -> Seq<Seq<char>>
    decreases s.len(),
{
    if s.len() == 0 {
        seq![]
    } else if is_separator(s[0]) {
        tokens(s.drop_first())
    } else {
        let j = find_separator(s, 0);
        if 0 < j <= s.len() {
            seq![s.subrange(0, j)] + tokens(s.subrange(j, s.len() as int))
        } else {
            seq![]
        }
    }
}

/// Without trailing `%`, `C` and `°` (as in `40C:30%` or `60°C:50%`).
pub open spec fn strip_units(s: Seq<char>) -> Seq<char>
    decreases s.len(),
{
    if s.len() > 0 && (s.last() == '%' || s.last() == 'C' || s.last() == '°') {
        strip_units(s.drop_last())
    } else {
        s
    }
}

/// One `temperature:duty` point.
pub open spec fn parse_point(tok: Seq<char>) -> Result<(u32, u32), Seq<char>> {
    match split_once(tok, ':') {
        None => Err("curve point `"@ + tok + "` is not `temperature:duty`"@),
        Some((a, b)) => match parse_u32(strip_units(a)) {
            None => Err("curve point `"@ + tok + "`: `"@ + a + "` is not a whole number"@),
            Some(t) => match parse_u32(strip_units(b)) {
                None => Err("curve point `"@ + tok + "`: `"@ + b + "` is not a whole number"@),
                Some(d) => Ok((t, d)),
            },
        },
    }
}

/// All points, or the error of the first one that does not read.
pub open spec fn parse_points(toks: Seq<Seq<char>>) -> Result<Seq<(u32, u32)>, Seq<char>>
    decreases toks.len(),
{
    if toks.len() == 0 {
        Ok(seq![])
    } else {
        match parse_point(toks[0]) {
            Err(e) => Err(e),
            Ok(p) => match parse_points(toks.drop_first()) {
                Err(e) => Err(e),
                Ok(rest) => Ok(seq![p] + rest),
            },
        }
    }
}

/// `auto` in any ASCII letter case.
pub open spec fn is_auto(t: Seq<char>) -> bool {
    &&& t.len() == 4
    &&& (t[0] == 'a' || t[0] == 'A')
    &&& (t[1] == 'u' || t[1] == 'U')
    &&& (t[2] == 't' || t[2] == 'T')
    &&& (t[3] == 'o' || t[3] == 'O')
}

/// A curve read from text: `auto`, or `temp:duty` points separated by commas and/or spaces
/// that make a valid custom curve.
pub open spec fn parse_curve_result(v: Seq<char>) -> Result<CurveModel, Seq<char>> {
    if is_auto(trim(v)) {
        Ok(CurveModel::Auto)
    } else {
        match parse_points(tokens(v)) {
            Err(e) => Err(e),
            Ok(p) => match custom_error(p) {
                Some(e) => Err("curve: "@ + e),
                None => Ok(CurveModel::Custom(p)),
            },
        }
    }
}

fn is_separator_char(c: char) -> (b: bool)
    ensures
        b == is_separator(c),
{
    c == ',' || is_whitespace_char(c)
}

fn is_auto_chars(t: &[char]) -> (b: bool)
    ensures
        b == is_auto(t@),
{
    t.len() == 4 && (t[0] == 'a' || t[0] == 'A') && (t[1] == 'u' || t[1] == 'U') && (t[2] == 't'
        || t[2] == 'T') && (t[3] == 'o' || t[3] == 'O')
}

pub proof fn lemma_strip_units_sub(s: Seq<char>, j: int)
    requires
        0 <= j <= s.len(),
        forall|k: int| j <= k < s.len() ==> (s[k] == '%' || s[k] == 'C' || s[k] == '°'),
        j == 0 || !(s[j - 1] == '%' || s[j - 1] == 'C' || s[j - 1] == '°'),
    ensures
        strip_units(s) == s.subrange(0, j),
    decreases s.len() - j,
{
    if j < s.len() {
        assert(s.drop_last().subrange(0, j) =~= s.subrange(0, j));
        lemma_strip_units_sub(s.drop_last(), j);
    } else {
        assert(s.subrange(0, j) =~= s);
    }
}

fn strip_units_chars(v: &[char]) -> (r: Vec<char>)
    ensures
        r@ == strip_units(v@),
{
    let mut j = v.len();
    while j > 0 && (v[j - 1] == '%' || v[j - 1] == 'C' || v[j - 1] == '°')
        invariant
            j <= v.len(),
            forall|k: int| j <= k < v.len() ==> (v@[k] == '%' || v@[k] == 'C' || v@[k] == '°'),
        decreases j,
    {
        j = j - 1;
    }
    proof {
        lemma_strip_units_sub(v@, j as int);
    }
    copy_range(v, 0, j)
}

fn point_number_error(tok: &[char], part: &[char]) -> (m: String)
    ensures
        m@ == "curve point `"@ + tok@ + "`: `"@ + part@ + "` is not a whole number"@,
{
    let mut m = String::new();
    push_str(&mut m, "curve point `");
    push_chars(&mut m, tok);
    push_str(&mut m, "`: `");
    push_chars(&mut m, part);
    push_str(&mut m, "` is not a whole number");
    assert(m@ =~= "curve point `"@ + tok@ + "`: `"@ + part@ + "` is not a whole number"@);
    m
}

fn parse_point_chars(tok: &[char]) -> (r: Result<(u32, u32), String>)
    ensures
        agrees(r, parse_point(tok@)),
{
    let k = find_char(tok, ':');
    proof {
        lemma_find_from(tok@, ':', 0);
    }
    if k == tok.len() {
        let mut m = String::new();
        push_str(&mut m, "curve point `");
        push_chars(&mut m, tok);
        push_str(&mut m, "` is not `temperature:duty`");
        assert(m@ =~= "curve point `"@ + tok@ + "` is not `temperature:duty`"@);
        return Err(m);
    }
    let a = copy_range(tok, 0, k);
    let b = copy_range(tok, k + 1, tok.len());
    let t = match parse_u32_chars(strip_units_chars(a.as_slice()).as_slice()) {
        Some(t) => t,
        None => {
            return Err(point_number_error(tok, a.as_slice()));
        },
    };
    let d = match parse_u32_chars(strip_units_chars(b.as_slice()).as_slice()) {
        Some(d) => d,
        None => {
            return Err(point_number_error(tok, b.as_slice()));
        },
    };
    Ok((t, d))
}

/// Combines points read so far with the outcome for the rest.
pub open spec fn after(done: Seq<(u32, u32)>, rest: Result<Seq<(u32, u32)>, Seq<char>>) -> Result<
    Seq<(u32, u32)>,
    Seq<char>,
> {
    match rest {
        Ok(r) => Ok(done + r),
        Err(e) => Err(e),
    }
}

fn parse_points_chars(v: &[char]) -> (r: Result<Vec<(u32, u32)>, String>)
    ensures
        match parse_points(tokens(v@)) {
            Ok(p) => r matches Ok(q) && q@ == p,
            Err(m) => r matches Err(e) && e@ == m,
        },
{
    let n = v.len();
    let mut points: Vec<(u32, u32)> = Vec::new();
    let mut i: usize = 0;
    assert(v@.subrange(0, n as int) =~= v@);
    assert(points@ + seq![] =~= points@);
    while i < n
        invariant
            n == v.len(),
            i <= n,
            after(points@, parse_points(tokens(v@.subrange(i as int, n as int)))) == parse_points(
                tokens(v@),
            ),
        decreases n - i,
    {
        let ghost rest = v@.subrange(i as int, n as int);
        if is_separator_char(v[i]) {
            assert(rest.drop_first() =~= v@.subrange(i + 1, n as int));
            i = i + 1;
        } else {
            let mut j = i;
            while j < n && !is_separator_char(v[j])
                invariant
                    i <= j <= n == v.len(),
                    forall|k: int| i <= k < j ==> !is_separator(v@[k]),
                decreases n - j,
            {
                j = j + 1;
            }
            proof {
                lemma_find_separator_is(rest, 0, j - i);
                assert(rest.subrange(0, j - i) =~= v@.subrange(i as int, j as int));
                assert(rest.subrange(j - i, rest.len() as int) =~= v@.subrange(j as int, n as int));
                let toks = tokens(rest);
                assert(toks == seq![v@.subrange(i as int, j as int)] + tokens(
                    v@.subrange(j as int, n as int),
                ));
                assert(toks[0] == v@.subrange(i as int, j as int));
                assert(toks.drop_first() =~= tokens(v@.subrange(j as int, n as int)));
            }
            let tok = copy_range(v, i, j);
            match parse_point_chars(tok.as_slice()) {
                Ok(p) => {
                    proof {
                        let later = parse_points(tokens(v@.subrange(j as int, n as int)));
                        match later {
                            Ok(r) => {
                                assert(points@.push(p) + r =~= points@ + (seq![p] + r));
                            },
                            Err(e) => {},
                        }
                    }
                    points.push(p);
                },
                Err(e) => {
                    return Err(e);
                },
            }
            i = j;
        }
    }
    assert(v@.subrange(n as int, n as int) =~= Seq::<char>::empty());
    assert(points@ + seq![] =~= points@);
    Ok(points)
}

/// Parses a curve: `auto`, or `temp:duty` points separated by commas and/or spaces
/// (e.g. `40:30, 55:40, 80:100`). Custom points are validated by `Curve::custom`.
pub fn parse_curve(value: &str) -> (r: Result<Curve, String>)
    ensures
        match parse_curve_result(value@) {
            Ok(c) => r matches Ok(x) && x@ == c,
            Err(m) => r matches Err(e) && e@ == m,
        },
{
    let v = chars_of(value);
    let t = trim_chars(v.as_slice());
    if is_auto_chars(t.as_slice()) {
        return Ok(Curve::Auto);
    }
    let points = match parse_points_chars(v.as_slice()) {
        Ok(p) => p,
        Err(e) => {
            return Err(e);
        },
    };
    match Curve::custom(points) {
        Ok(c) => Ok(c),
        Err(e) => {
            let mut m = String::new();
            push_str(&mut m, "curve: ");
            push_str(&mut m, e.as_str());
            assert(m@ =~= "curve: "@ + e@);
            Err(m)
        },
    }
}

// ----- max temp -----

/// `validate_max_temp`'s outcome for a value: a whole number within 60..=90 °C.
pub open spec fn max_temp_result(v: Seq<char>) -> Result<u32, Seq<char>> {
    match parse_u32(v) {
        None => Err("max_temp `"@ + v + "` is not a whole number"@),
        Some(t) => if MAX_TEMP_LOW <= t <= MAX_TEMP_HIGH {
            Ok(t)
        } else {
            Err("max_temp "@ + decimal(t as nat) + " is outside 60..=90 °C"@)
        },
    }
}

fn max_temp_chars(v: &[char]) -> (r: Result<u32, String>)
    ensures
        agrees(r, max_temp_result(v@)),
{
    match parse_u32_chars(v) {
        None => {
            let mut m = String::new();
            push_str(&mut m, "max_temp `");
            push_chars(&mut m, v);
            push_str(&mut m, "` is not a whole number");
            assert(m@ =~= "max_temp `"@ + v@ + "` is not a whole number"@);
            Err(m)
        },
        Some(t) => {
            if MAX_TEMP_LOW <= t && t <= MAX_TEMP_HIGH {
                Ok(t)
            } else {
                let mut m = String::new();
                push_str(&mut m, "max_temp ");
                push_u32(&mut m, t);
                push_str(&mut m, " is outside 60..=90 °C");
                assert(m@ =~= "max_temp "@ + decimal(t as nat) + " is outside 60..=90 °C"@);
                Err(m)
            }
        },
    }
}

/// Parses and range-checks a max temp value given as text.
pub fn validate_max_temp(value: &str) -> (r: Result<u32, String>)
    ensures
        agrees(r, max_temp_result(value@)),
{
    let v = chars_of(value);
    max_temp_chars(v.as_slice())
}


// ----- the settings file -----

pub open spec fn line_error(number: nat, what: Seq<char>) -> Seq<char> {
    "line "@ + decimal(number) + ": "@ + what
}

/// One line of the settings file, numbered from 1: a comment or blank line changes nothing,
/// otherwise it is `key = value` for `max_temp`, `curve` or `custom_curve`.
pub open spec fn apply_line(c: ConfigModel, line: Seq<char>, number: nat) -> Result<
    ConfigModel,
    Seq<char>,
> {
    let l = trim(before(line, '#'));
    if l.len() == 0 {
        Ok(c)
    } else {
        match split_once(l, '=') {
            None => Err(line_error(number, "expected `key = value`"@)),
            Some((k, v)) => {
                let key = trim(k);
                let value = trim(v);
                if key == "max_temp"@ {
                    match max_temp_result(value) {
                        Ok(t) => Ok(ConfigModel { max_temp: t, ..c }),
                        Err(e) => Err(e),
                    }
                } else if key == "curve"@ {
                    match parse_curve_result(value) {
                        Ok(curve) => Ok(ConfigModel { curve: curve, ..c }),
                        Err(e) => Err(e),
                    }
                } else if key == "custom_curve"@ {
                    match parse_curve_result(value) {
                        Ok(CurveModel::Custom(p)) => Ok(ConfigModel { remembered_custom: Some(p), ..c }),
                        Ok(CurveModel::Auto) => Err(
                            line_error(number, "custom_curve needs points, not `auto`"@),
                        ),
                        Err(e) => Err(e),
                    }
                } else {
                    Err(line_error(number, "unknown key `"@ + key + "`"@))
                }
            },
        }
    }
}

/// The lines in order, numbered from `number`; the first failing line decides the error.
pub open spec fn apply_lines(c: ConfigModel, ls: Seq<Seq<char>>, number: nat) -> Result<
    ConfigModel,
    Seq<char>,
>
    decreases ls.len(),
{
    if ls.len() == 0 {
        Ok(c)
    } else {
        match apply_line(c, ls[0], number) {
            Err(e) => Err(e),
            Ok(next) => apply_lines(next, ls.drop_first(), number + 1),
        }
    }
}

/// A custom curve in use is never also remembered.
pub open spec fn normalized(c: ConfigModel) -> ConfigModel {
    match c.curve {
        CurveModel::Custom(_) => ConfigModel { remembered_custom: None, ..c },
        CurveModel::Auto => c,
    }
}

/// The settings a text describes; missing keys keep their defaults.
pub open spec fn parse_result(text: Seq<char>) -> Result<ConfigModel, Seq<char>> {
    match apply_lines(default_model(), lines(text), 1) {
        Ok(c) => Ok(normalized(c)),
        Err(e) => Err(e),
    }
}

fn line_error_text(number: u128, what: &str) -> (m: String)
    ensures
        m@ == line_error(number as nat, what@),
{
    let mut m = String::new();
    push_str(&mut m, "line ");
    push_decimal(&mut m, number);
    push_str(&mut m, ": ");
    push_str(&mut m, what);
    assert(m@ =~= line_error(number as nat, what@));
    m
}

fn apply_line_chars(c: &mut Config, line: &[char], number: u128) -> (r: Result<(), String>)
    ensures
        match apply_line(old(c)@, line@, number as nat) {
            Ok(m) => r is Ok && final(c)@ == m,
            Err(e) => r matches Err(x) && x@ == e,
        },
{
    let h = find_char(line, '#');
    proof {
        lemma_find_from(line@, '#', 0);
    }
    let l = trim_chars(copy_range(line, 0, h).as_slice());
    if l.len() == 0 {
        return Ok(());
    }
    let k = find_char(l.as_slice(), '=');
    proof {
        lemma_find_from(l@, '=', 0);
    }
    if k == l.len() {
        return Err(line_error_text(number, "expected `key = value`"));
    }
    let key = trim_chars(copy_range(l.as_slice(), 0, k).as_slice());
    let value = trim_chars(copy_range(l.as_slice(), k + 1, l.len()).as_slice());
    let value_text = string_of(value.as_slice());
    if chars_equal(key.as_slice(), "max_temp") {
        match max_temp_chars(value.as_slice()) {
            Ok(t) => {
                c.max_temp = t;
                Ok(())
            },
            Err(e) => Err(e),
        }
    } else if chars_equal(key.as_slice(), "curve") {
        match parse_curve(value_text.as_str()) {
            Ok(curve) => {
                c.curve = curve;
                Ok(())
            },
            Err(e) => Err(e),
        }
    } else if chars_equal(key.as_slice(), "custom_curve") {
        match parse_curve(value_text.as_str()) {
            Ok(Curve::Custom(p)) => {
                c.remembered_custom = Some(p);
                Ok(())
            },
            Ok(Curve::Auto) => Err(line_error_text(number, "custom_curve needs points, not `auto`")),
            Err(e) => Err(e),
        }
    } else {
        let mut m = String::new();
        push_str(&mut m, "line ");
        push_decimal(&mut m, number);
        push_str(&mut m, ": ");
        push_str(&mut m, "unknown key `");
        push_chars(&mut m, key.as_slice());
        push_str(&mut m, "`");
        assert(m@ =~= line_error(number as nat, "unknown key `"@ + key@ + "`"@));
        Err(m)
    }
}

/// Parses the config text. Missing keys keep their defaults.
pub fn parse(text: &str) -> (r: Result<Config, String>)
    ensures
        match parse_result(text@) {
            Ok(c) => r matches Ok(x) && x@ == c,
            Err(m) => r matches Err(e) && e@ == m,
        },
{
    let t = chars_of(text);
    let mut rest = copy_range(t.as_slice(), 0, t.len());
    let mut config = Config::default();
    let mut number: u128 = 1;
    assert(rest@ =~= text@);
    while rest.len() > 0
        invariant
            apply_lines(config@, lines(rest@), number as nat) == apply_lines(
                default_model(),
                lines(text@),
                1,
            ),
            t@ == text@,
            rest.len() <= t.len(),
            1 <= number <= t.len() - rest.len() + 1,
        decreases rest.len(),
    {
        let j = find_char(rest.as_slice(), '\n');
        proof {
            lemma_find_from(rest@, '\n', 0);
        }
        let line;
        let next;
        if j < rest.len() {
            let mut l = copy_range(rest.as_slice(), 0, j);
            if l.len() > 0 && l[l.len() - 1] == '\r' {
                l.pop();
            }
            line = l;
            next = copy_range(rest.as_slice(), j + 1, rest.len());
        } else {
            line = copy_range(rest.as_slice(), 0, rest.len());
            next = Vec::new();
            assert(line@ =~= rest@);
        }
        proof {
            let ls = lines(rest@);
            assert(ls[0] == line@) by {
                if j < rest.len() {
                    assert(line@ =~= strip_cr(rest@.subrange(0, j as int)));
                }
            }
            assert(ls.drop_first() =~= lines(next@)) by {
                if j == rest.len() {
                    assert(lines(next@) =~= Seq::<Seq<char>>::empty());
                }
            }
        }
        match apply_line_chars(&mut config, line.as_slice(), number) {
            Ok(()) => {},
            Err(e) => {
                return Err(e);
            },
        }
        number = number + 1;
        rest = next;
    }
    if let Curve::Custom(_) = config.curve {
        config.remembered_custom = None;
    }
    Ok(config)
}


// ----- writing the settings file -----

/// One point as `temperature:duty`.
pub open spec fn point_text(pt: (u32, u32)) -> Seq<char> {
    decimal(pt.0 as nat) + seq![':'] + decimal(pt.1 as nat)
}

/// The points joined by `, `.
pub open spec fn points_text(p: Seq<(u32, u32)>) -> Seq<char>
    decreases p.len(),
{
    if p.len() == 0 {
        seq![]
    } else if p.len() == 1 {
        point_text(p[0])
    } else {
        point_text(p[0]) + seq![',', ' '] + points_text(p.drop_first())
    }
}

pub open spec fn curve_text(c: CurveModel) -> Seq<char> {
    match c {
        CurveModel::Auto => "auto"@,
        CurveModel::Custom(p) => points_text(p),
    }
}

/// Each line followed by a line break.
pub open spec fn joined(ls: Seq<Seq<char>>) -> Seq<char>
    decreases ls.len(),
{
    if ls.len() == 0 {
        seq![]
    } else {
        ls[0] + seq!['\n'] + joined(ls.drop_first())
    }
}

/// The `custom_curve` line, written only while Auto runs and a custom curve is remembered.
pub open spec fn remembered_lines(c: ConfigModel) -> Seq<Seq<char>> {
    match (c.curve, c.remembered_custom) {
        (CurveModel::Auto, Some(p)) => seq!["custom_curve = "@ + points_text(p)],
        _ => seq![],
    }
}

/// The lines of the settings file for `c`: explanations, `max_temp`, `curve` and maybe
/// `custom_curve`.
pub open spec fn render_lines(c: ConfigModel) -> Seq<Seq<char>> {
    max_temp_comments() + seq!["max_temp = "@ + decimal(c.max_temp as nat)] + curve_comments() + seq![
        "curve = "@ + curve_text(c.curve),
    ] + remembered_lines(c)
}

/// The explanation above `max_temp`.
pub open spec fn max_temp_comments() -> Seq<Seq<char>> {
    seq![
        "# gpu-fanctl settings"@,
        "#"@,
        "# max_temp: GPU temperature (°C) at which the external fans always run at 100 %."@,
        "#   Allowed 60..=90, default 80."@,
    ]
}

/// The explanation above `curve`.
pub open spec fn curve_comments() -> Seq<Seq<char>> {
    seq![
        "#"@,
        "# curve: `auto` for the built-in Auto curve (30 % up to 45 °C, rising to 100 % at max_temp),"@,
        "#   or a custom fan curve as temperature:duty points (°C:%), rising left to right:"@,
        "#   2..=16 points, temperatures 20..=100 °C, duty 30..=100 %."@,
        "# custom_curve: with `curve = auto`, your custom curve is remembered here."@,
    ]
}

pub open spec fn render_text(c: ConfigModel) -> Seq<char> {
    joined(render_lines(c))
}

pub proof fn lemma_joined_push(ls: Seq<Seq<char>>, l: Seq<char>)
    ensures
        joined(ls.push(l)) == joined(ls) + l + seq!['\n'],
    decreases ls.len(),
{
    if ls.len() == 0 {
        assert(ls.push(l).drop_first() =~= Seq::<Seq<char>>::empty());
        assert(ls.push(l)[0] == l);
        assert(joined(Seq::<Seq<char>>::empty()) == Seq::<char>::empty());
        assert(joined(ls) == Seq::<char>::empty());
        assert(joined(ls.push(l)) =~= joined(ls) + l + seq!['\n']);
    } else {
        lemma_joined_push(ls.drop_first(), l);
        assert(ls.push(l).drop_first() =~= ls.drop_first().push(l));
        assert(joined(ls.push(l)) =~= joined(ls) + l + seq!['\n']);
    }
}

fn push_point(s: &mut String, pt: (u32, u32))
    ensures
        final(s)@ == old(s)@ + point_text(pt),
{
    push_u32(s, pt.0);
    s.push(':');
    push_u32(s, pt.1);
    assert(final(s)@ =~= old(s)@ + point_text(pt));
}

/// The points as `temperature:duty` joined by `, `.
pub fn format_points(points: &[(u32, u32)]) -> (r: String)
    ensures
        r@ == points_text(points@),
{
    let mut s = String::new();
    let n = points.len();
    if n == 0 {
        return s;
    }
    push_point(&mut s, points[0]);
    let mut i: usize = 1;
    proof {
        let p = points@;
        assert(p.subrange(0, n as int) =~= p);
        if n > 1 {
            assert(p.subrange(0, n as int).drop_first() =~= p.subrange(1, n as int));
        } else {
            assert(s@ =~= points_text(p));
        }
    }
    while i < n
        invariant
            n == points.len(),
            1 <= i <= n,
            i < n ==> s@ + seq![',', ' '] + points_text(points@.subrange(i as int, n as int))
                == points_text(points@),
            i == n ==> s@ == points_text(points@),
        decreases n - i,
    {
        let ghost before = s@;
        s.push(',');
        s.push(' ');
        push_point(&mut s, points[i]);
        proof {
            let p = points@;
            let rest = p.subrange(i as int, n as int);
            assert(rest[0] == p[i as int]);
            if i + 1 < n {
                assert(rest.drop_first() =~= p.subrange(i + 1, n as int));
                assert(points_text(rest) == point_text(p[i as int]) + seq![',', ' '] + points_text(
                    p.subrange(i + 1, n as int),
                ));
                assert(s@ + seq![',', ' '] + points_text(p.subrange(i + 1, n as int)) =~= before
                    + seq![',', ' '] + points_text(rest));
            } else {
                assert(points_text(rest) == point_text(p[i as int]));
                assert(s@ =~= before + seq![',', ' '] + points_text(rest));
            }
        }
        i = i + 1;
    }
    s
}

/// `auto` or the custom points, as in the settings file.
pub fn format_curve(curve: &Curve) -> (r: String)
    ensures
        r@ == curve_text(curve@),
{
    match curve {
        Curve::Auto => {
            let mut s = String::new();
            push_str(&mut s, "auto");
            assert(s@ =~= "auto"@);
            s
        },
        Curve::Custom(points) => format_points(points.as_slice()),
    }
}

fn push_line(s: &mut String, Ghost(done): Ghost<Seq<Seq<char>>>, line: &str)
    requires
        old(s)@ == joined(done),
    ensures
        final(s)@ == joined(done.push(line@)),
{
    push_str(s, line);
    s.push('\n');
    proof {
        lemma_joined_push(done, line@);
    }
}

/// The settings file text for `config`.
pub fn render(config: &Config) -> (r: String)
    ensures
        r@ == render_text(config@),
{
    let ghost c = config@;
    let mut s = String::new();
    let ghost mut done: Seq<Seq<char>> = seq![];
    push_line(&mut s, Ghost(done), "# gpu-fanctl settings");
    proof { done = done.push("# gpu-fanctl settings"@); }
    push_line(&mut s, Ghost(done), "#");
    proof { done = done.push("#"@); }
    push_line(&mut s, Ghost(done), "# max_temp: GPU temperature (°C) at which the external fans always run at 100 %.");
    proof { done = done.push("# max_temp: GPU temperature (°C) at which the external fans always run at 100 %."@); }
    push_line(&mut s, Ghost(done), "#   Allowed 60..=90, default 80.");
    proof { done = done.push("#   Allowed 60..=90, default 80."@); }
    let mut line = String::new();
    push_str(&mut line, "max_temp = ");
    push_u32(&mut line, config.max_temp);
    push_line(&mut s, Ghost(done), line.as_str());
    proof { done = done.push(line@); }
    push_line(&mut s, Ghost(done), "#");
    proof { done = done.push("#"@); }
    push_line(&mut s, Ghost(done), "# curve: `auto` for the built-in Auto curve (30 % up to 45 °C, rising to 100 % at max_temp),");
    proof { done = done.push("# curve: `auto` for the built-in Auto curve (30 % up to 45 °C, rising to 100 % at max_temp),"@); }
    push_line(&mut s, Ghost(done), "#   or a custom fan curve as temperature:duty points (°C:%), rising left to right:");
    proof { done = done.push("#   or a custom fan curve as temperature:duty points (°C:%), rising left to right:"@); }
    push_line(&mut s, Ghost(done), "#   2..=16 points, temperatures 20..=100 °C, duty 30..=100 %.");
    proof { done = done.push("#   2..=16 points, temperatures 20..=100 °C, duty 30..=100 %."@); }
    push_line(&mut s, Ghost(done), "# custom_curve: with `curve = auto`, your custom curve is remembered here.");
    proof { done = done.push("# custom_curve: with `curve = auto`, your custom curve is remembered here."@); }
    let mut line = String::new();
    push_str(&mut line, "curve = ");
    let text = format_curve(&config.curve);
    push_str(&mut line, text.as_str());
    push_line(&mut s, Ghost(done), line.as_str());
    proof { done = done.push(line@); }
    if let (Curve::Auto, Some(points)) = (&config.curve, &config.remembered_custom) {
        let mut line = String::new();
        push_str(&mut line, "custom_curve = ");
        let text = format_points(points.as_slice());
        push_str(&mut line, text.as_str());
        push_line(&mut s, Ghost(done), line.as_str());
        proof { done = done.push(line@); }
    }
    proof {
        assert(done =~= render_lines(c));
    }
    s
}


// ----- switching curves -----

/// The user's custom points: the active custom curve, or the one remembered while Auto runs.
pub open spec fn custom_points_of(c: ConfigModel) -> Option<Seq<(u32, u32)>> {
    match c.curve {
        CurveModel::Custom(p) => Some(p),
        CurveModel::Auto => c.remembered_custom,
    }
}

/// Auto in use, the custom curve remembered.
pub open spec fn with_auto(c: ConfigModel) -> ConfigModel {
    ConfigModel { curve: CurveModel::Auto, remembered_custom: custom_points_of(c), ..c }
}

/// Back to the custom curve, if there is one and it is valid.
pub open spec fn with_remembered_custom(c: ConfigModel) -> Result<ConfigModel, Seq<char>> {
    match custom_points_of(c) {
        None => Err("no custom curve has been set yet"@),
        Some(p) => match custom_error(p) {
            Some(e) => Err(e),
            None => Ok(
                ConfigModel { curve: CurveModel::Custom(p), remembered_custom: None, ..c },
            ),
        },
    }
}

fn copy_points(p: &[(u32, u32)]) -> (r: Vec<(u32, u32)>)
    ensures
        r@ == p@,
{
    let mut r: Vec<(u32, u32)> = Vec::new();
    let mut i: usize = 0;
    while i < p.len()
        invariant
            i <= p.len(),
            r@ == p@.subrange(0, i as int),
        decreases p.len() - i,
    {
        r.push(p[i]);
        i = i + 1;
    }
    assert(p@.subrange(0, p.len() as int) =~= p@);
    r
}

impl Config {
    /// The user's custom points: the active custom curve, or the one remembered while Auto runs.
    pub fn custom_points(&self) -> (r: Option<&[(u32, u32)]>)
        ensures
            match custom_points_of(self@) {
                Some(p) => r matches Some(s) && s@ == p,
                None => r is None,
            },
    {
        match &self.curve {
            Curve::Custom(points) => Some(points.as_slice()),
            Curve::Auto => match &self.remembered_custom {
                Some(points) => Some(points.as_slice()),
                None => None,
            },
        }
    }

    /// Switches to the Auto curve, remembering the custom curve.
    pub fn use_auto(&mut self)
        ensures
            final(self)@ == with_auto(old(self)@),
    {
        let remembered = match self.custom_points() {
            Some(points) => Some(copy_points(points)),
            None => None,
        };
        self.remembered_custom = remembered;
        self.curve = Curve::Auto;
    }

    /// Switches back to the remembered custom curve. On an error nothing changes.
    pub fn use_remembered_custom(&mut self) -> (r: Result<(), String>)
        ensures
            match with_remembered_custom(old(self)@) {
                Ok(c) => r is Ok && final(self)@ == c,
                Err(m) => r matches Err(e) && e@ == m && final(self)@ == old(self)@,
            },
    {
        let points = match self.custom_points() {
            Some(points) => copy_points(points),
            None => {
                let mut m = String::new();
                push_str(&mut m, "no custom curve has been set yet");
                assert(m@ =~= "no custom curve has been set yet"@);
                return Err(m);
            },
        };
        match Curve::custom(points) {
            Ok(curve) => {
                self.set_custom(curve);
                Ok(())
            },
            Err(e) => Err(e),
        }
    }

    /// Uses `curve` (a `Curve::Custom`) as the custom curve.
    pub fn set_custom(&mut self, curve: Curve)
        ensures
            final(self)@ == (ConfigModel {
                curve: curve@,
                remembered_custom: None,
                ..old(self)@
            }),
    {
        self.curve = curve;
        self.remembered_custom = None;
    }
}

// ----- loading -----

/// What reading the settings file gave.
pub enum FileRead {
    Text(String),
    /// There is no settings file.
    NotFound,
    /// Reading failed for another reason, described.
    Failed(String),
}

pub open spec fn fallback_warning(path: Seq<char>, reason: Seq<char>) -> Seq<char> {
    path + ": "@ + reason + "; using the Auto curve and max temp 80 °C"@
}

fn fallback(path: &str, reason: &str) -> (r: (Config, Option<String>))
    ensures
        r.0@ == default_model(),
        r.1 matches Some(w) && w@ == fallback_warning(path@, reason@),
{
    let mut w = String::new();
    push_str(&mut w, path);
    push_str(&mut w, ": ");
    push_str(&mut w, reason);
    push_str(&mut w, "; using the Auto curve and max temp 80 °C");
    assert(w@ =~= fallback_warning(path@, reason@));
    (Config::default(), Some(w))
}

/// The settings from what reading the file at `path` gave. A missing file gives the defaults;
/// an invalid one gives the defaults (Auto curve, max temp 80) plus a warning to log.
pub fn load_from(path: &str, read: FileRead) -> (r: (Config, Option<String>))
    ensures
        match read {
            FileRead::Text(t) => match parse_result(t@) {
                Ok(c) => r.0@ == c && r.1 is None,
                Err(e) => r.0@ == default_model() && (r.1 matches Some(w) && w@ == fallback_warning(
                    path@,
                    e,
                )),
            },
            FileRead::NotFound => r.0@ == default_model() && r.1 is None,
            FileRead::Failed(reason) => r.0@ == default_model() && (r.1 matches Some(w) && w@
                == fallback_warning(path@, reason@)),
        },
{
    match read {
        FileRead::Text(text) => match parse(text.as_str()) {
            Ok(c) => (c, None),
            Err(e) => fallback(path, e.as_str()),
        },
        FileRead::NotFound => (Config::default(), None),
        FileRead::Failed(reason) => fallback(path, reason.as_str()),
    }
}

} // verus!
