//! What holds of the settings file across functions: a file written by `render` reads back as
//! the same settings, and switching to Auto and back keeps the custom curve.

use vstd::prelude::*;
use crate::config::{
    apply_line, apply_lines, curve_comments, curve_text, custom_points_of, default_model, is_auto,
    is_separator, joined, lemma_custom_error_iff_invalid, lemma_find_separator_is,
    max_temp_comments, normalized, parse_curve_result, parse_point, parse_points, parse_result,
    point_text, points_text, remembered_lines, render_lines, render_text, strip_units, tokens,
    valid_points, with_auto, with_remembered_custom, ConfigModel, CurveModel, MAX_TEMP_HIGH,
    MAX_TEMP_LOW,
};
use crate::text::{
    before, decimal, is_digit, is_whitespace, lemma_decimal_digits, lemma_find_from_is,
    lemma_parse_decimal, lemma_trim_lead, lemma_trim_solid, lemma_trim_trail, lines, split_once,
    strip_cr, trim, trim_end, trim_start,
};

verus! {

/// Settings that `render` writes and `parse` reads back unchanged: max temp in range, valid
/// custom points, and a remembered curve only while Auto runs.
pub open spec fn well_formed(c: ConfigModel) -> bool {
    &&& MAX_TEMP_LOW <= c.max_temp <= MAX_TEMP_HIGH
    &&& match c.curve {
        CurveModel::Custom(p) => valid_points(p) && c.remembered_custom is None,
        CurveModel::Auto => true,
    }
    &&& match c.remembered_custom {
        Some(p) => valid_points(p),
        None => true,
    }
}

pub open spec fn no_newline(s: Seq<char>) -> bool {
    forall|i: int| 0 <= i < s.len() ==> s[i] != '\n'
}

pub open spec fn plain_line(s: Seq<char>) -> bool {
    no_newline(s) && !(s.len() > 0 && s.last() == '\r')
}

pub open spec fn comment_line(s: Seq<char>) -> bool {
    plain_line(s) && s.len() > 0 && s[0] == '#'
}

proof fn lemma_lines_joined(ls: Seq<Seq<char>>)
    requires
        forall|i: int| 0 <= i < ls.len() ==> plain_line(#[trigger] ls[i]),
    ensures
        lines(joined(ls)) == ls,
    decreases ls.len(),
{
    if ls.len() == 0 {
        assert(lines(joined(ls)) =~= ls);
    } else {
        let l = ls[0];
        let rest = ls.drop_first();
        assert(plain_line(l));
        assert forall|i: int| 0 <= i < rest.len() implies plain_line(#[trigger] rest[i]) by {
            assert(rest[i] == ls[i + 1]);
        }
        lemma_lines_joined(rest);
        let t = joined(ls);
        assert(t == l + seq!['\n'] + joined(rest));
        assert forall|k: int| 0 <= k < l.len() implies t[k] != '\n' by {
            assert(t[k] == l[k]);
        }
        lemma_find_from_is(t, '\n', 0, l.len() as int);
        assert(t.subrange(0, l.len() as int) =~= l);
        assert(strip_cr(l) == l);
        assert(t.subrange(l.len() as int + 1, t.len() as int) =~= joined(rest));
        assert(lines(t) =~= seq![l] + rest);
        assert(seq![l] + rest =~= ls);
    }
}

proof fn lemma_apply_lines_concat(c: ConfigModel, a: Seq<Seq<char>>, b: Seq<Seq<char>>, n: nat)
    ensures
        apply_lines(c, a + b, n) == (match apply_lines(c, a, n) {
            Ok(c2) => apply_lines(c2, b, n + a.len()),
            Err(e) => Err(e),
        }),
    decreases a.len(),
{
    if a.len() == 0 {
        assert(a + b =~= b);
    } else {
        assert((a + b)[0] == a[0]);
        assert((a + b).drop_first() =~= a.drop_first() + b);
        match apply_line(c, a[0], n) {
            Ok(c2) => {
                lemma_apply_lines_concat(c2, a.drop_first(), b, n + 1);
            },
            Err(e) => {},
        }
    }
}

proof fn lemma_comment(c: ConfigModel, l: Seq<char>, n: nat)
    requires
        comment_line(l),
    ensures
        apply_line(c, l, n) == Ok::<ConfigModel, Seq<char>>(c),
{
    lemma_find_from_is(l, '#', 0, 0);
    assert(before(l, '#') =~= Seq::<char>::empty());
    assert(trim_start(Seq::<char>::empty()) == Seq::<char>::empty());
    assert(trim_end(Seq::<char>::empty()) == Seq::<char>::empty());
}

proof fn lemma_comments(c: ConfigModel, ls: Seq<Seq<char>>, n: nat)
    requires
        forall|i: int| 0 <= i < ls.len() ==> comment_line(#[trigger] ls[i]),
    ensures
        apply_lines(c, ls, n) == Ok::<ConfigModel, Seq<char>>(c),
    decreases ls.len(),
{
    if ls.len() > 0 {
        assert(comment_line(ls[0]));
        lemma_comment(c, ls[0], n);
        assert forall|i: int| 0 <= i < ls.drop_first().len() implies comment_line(
            #[trigger] ls.drop_first()[i],
        ) by {
            assert(ls.drop_first()[i] == ls[i + 1]);
        }
        lemma_comments(c, ls.drop_first(), n + 1);
    }
}

proof fn lemma_comment_blocks()
    ensures
        forall|i: int|
            0 <= i < max_temp_comments().len() ==> comment_line(#[trigger] max_temp_comments()[i]),
        forall|i: int|
            0 <= i < curve_comments().len() ==> comment_line(#[trigger] curve_comments()[i]),
{
    reveal_strlit("# gpu-fanctl settings");
    reveal_strlit("#");
    reveal_strlit("# max_temp: GPU temperature (°C) at which the external fans always run at 100 %.");
    reveal_strlit("#   Allowed 60..=90, default 80.");
    reveal_strlit(
        "# curve: `auto` for the built-in Auto curve (30 % up to 45 °C, rising to 100 % at max_temp),",
    );
    reveal_strlit(
        "#   or a custom fan curve as temperature:duty points (°C:%), rising left to right:",
    );
    reveal_strlit("#   2..=16 points, temperatures 20..=100 °C, duty 30..=100 %.");
    reveal_strlit("# custom_curve: with `curve = auto`, your custom curve is remembered here.");
    let a = max_temp_comments();
    let b = curve_comments();
    assert(comment_line(a[0]));
    assert(comment_line(a[1]));
    assert(comment_line(a[2]));
    assert(comment_line(a[3]));
    assert(comment_line(b[0]));
    assert(comment_line(b[1]));
    assert(comment_line(b[2]));
    assert(comment_line(b[3]));
    assert(comment_line(b[4]));
}

// ----- points as text -----

/// Characters of written points: digits, `:`, `,` and spaces.
pub open spec fn point_char(c: char) -> bool {
    is_digit(c) || c == ':' || c == ',' || c == ' '
}

proof fn lemma_point_text(pt: (u32, u32))
    ensures
        point_text(pt).len() > 0,
        is_digit(point_text(pt)[0]),
        is_digit(point_text(pt).last()),
        forall|i: int| 0 <= i < point_text(pt).len() ==> point_char(#[trigger] point_text(pt)[i]),
        forall|i: int|
            0 <= i < point_text(pt).len() ==> !is_separator(#[trigger] point_text(pt)[i]),
{
    lemma_decimal_digits(pt.0 as nat);
    lemma_decimal_digits(pt.1 as nat);
    let a = decimal(pt.0 as nat);
    let b = decimal(pt.1 as nat);
    let t = point_text(pt);
    assert forall|i: int| 0 <= i < t.len() implies point_char(#[trigger] t[i]) && !is_separator(
        t[i],
    ) by {
        if i < a.len() {
            assert(t[i] == a[i]);
        } else if i == a.len() {
            assert(t[i] == ':');
        } else {
            assert(t[i] == b[i - a.len() - 1]);
        }
    }
    assert(t.last() == b.last());
}

proof fn lemma_points_text(p: Seq<(u32, u32)>)
    requires
        p.len() > 0,
    ensures
        points_text(p).len() > 0,
        is_digit(points_text(p)[0]),
        is_digit(points_text(p).last()),
        forall|i: int| 0 <= i < points_text(p).len() ==> point_char(#[trigger] points_text(p)[i]),
        tokens(points_text(p)) == p.map_values(|x: (u32, u32)| point_text(x)),
    decreases p.len(),
{
    lemma_point_text(p[0]);
    let a = point_text(p[0]);
    let t = points_text(p);
    if p.len() == 1 {
        lemma_find_separator_is(t, 0, t.len() as int);
        assert(t.subrange(0, t.len() as int) =~= t);
        assert(tokens(t.subrange(t.len() as int, t.len() as int)) == Seq::<Seq<char>>::empty()) by {
            assert(t.subrange(t.len() as int, t.len() as int) =~= Seq::<char>::empty());
        }
        assert(tokens(t) =~= p.map_values(|x: (u32, u32)| point_text(x)));
    } else {
        let rest = p.drop_first();
        lemma_points_text(rest);
        let r = points_text(rest);
        assert(t == a + seq![',', ' '] + r);
        assert forall|i: int| 0 <= i < t.len() implies point_char(#[trigger] t[i]) by {
            if i < a.len() {
                assert(t[i] == a[i]);
            } else if i == a.len() {
                assert(t[i] == ',');
            } else if i == a.len() + 1 {
                assert(t[i] == ' ');
            } else {
                assert(t[i] == r[i - a.len() - 2]);
            }
        }
        assert(t[0] == a[0]);
        assert(t.last() == r.last());
        assert forall|k: int| 0 <= k < a.len() implies !is_separator(t[k]) by {
            assert(t[k] == a[k]);
        }
        assert(is_separator(t[a.len() as int]));
        lemma_find_separator_is(t, 0, a.len() as int);
        assert(t.subrange(0, a.len() as int) =~= a);
        let u = t.subrange(a.len() as int, t.len() as int);
        assert(u[0] == ',');
        assert(u.drop_first()[0] == ' ');
        assert(u.drop_first().drop_first() =~= r);
        assert(tokens(u) == tokens(u.drop_first()));
        assert(tokens(u.drop_first()) == tokens(r));
        assert(tokens(t) == seq![a] + tokens(r));
        assert(tokens(t) =~= p.map_values(|x: (u32, u32)| point_text(x)));
    }
}

proof fn lemma_strip_units_digits(s: Seq<char>)
    requires
        s.len() > 0,
        is_digit(s.last()),
    ensures
        strip_units(s) == s,
{
}

proof fn lemma_parse_point_text(pt: (u32, u32))
    ensures
        parse_point(point_text(pt)) == Ok::<(u32, u32), Seq<char>>(pt),
{
    lemma_decimal_digits(pt.0 as nat);
    lemma_decimal_digits(pt.1 as nat);
    let a = decimal(pt.0 as nat);
    let b = decimal(pt.1 as nat);
    let t = point_text(pt);
    assert forall|k: int| 0 <= k < a.len() implies t[k] != ':' by {
        assert(t[k] == a[k]);
    }
    lemma_find_from_is(t, ':', 0, a.len() as int);
    assert(t.subrange(0, a.len() as int) =~= a);
    assert(t.subrange(a.len() as int + 1, t.len() as int) =~= b);
    lemma_strip_units_digits(a);
    lemma_strip_units_digits(b);
    lemma_parse_decimal(pt.0);
    lemma_parse_decimal(pt.1);
}

proof fn lemma_parse_points_map(p: Seq<(u32, u32)>)
    ensures
        parse_points(p.map_values(|x: (u32, u32)| point_text(x))) == Ok::<
            Seq<(u32, u32)>,
            Seq<char>,
        >(p),
    decreases p.len(),
{
    let m = p.map_values(|x: (u32, u32)| point_text(x));
    if p.len() > 0 {
        lemma_parse_point_text(p[0]);
        assert(m.drop_first() =~= p.drop_first().map_values(|x: (u32, u32)| point_text(x)));
        lemma_parse_points_map(p.drop_first());
        assert(seq![p[0]] + p.drop_first() =~= p);
    } else {
        assert(p =~= Seq::<(u32, u32)>::empty());
    }
}

/// Written curves read back: `auto`, or the same valid points.
pub proof fn curve_text_reads_back(c: CurveModel)
    requires
        match c {
            CurveModel::Custom(p) => valid_points(p),
            CurveModel::Auto => true,
        },
    ensures
        parse_curve_result(curve_text(c)) == Ok::<CurveModel, Seq<char>>(c),
{
    match c {
        CurveModel::Auto => {
            reveal_strlit("auto");
            lemma_trim_solid("auto"@);
        },
        CurveModel::Custom(p) => {
            lemma_points_text(p);
            let t = points_text(p);
            lemma_trim_solid(t);
            assert(!is_auto(t));
            lemma_parse_points_map(p);
            lemma_custom_error_iff_invalid(p);
        },
    }
}

// ----- key = value lines -----

pub open spec fn solid_value(v: Seq<char>) -> bool {
    &&& v.len() > 0
    &&& !is_whitespace(v[0])
    &&& !is_whitespace(v.last())
    &&& forall|i: int| 0 <= i < v.len() ==> #[trigger] v[i] != '#' && v[i] != '=' && v[i] != '\n'
        && v[i] != '\r'
}

proof fn lemma_key_value(key: Seq<char>, v: Seq<char>)
    requires
        solid_value(key),
        solid_value(v),
    ensures
        trim(before(key + seq![' ', '=', ' '] + v, '#')) == key + seq![' ', '=', ' '] + v,
        split_once(key + seq![' ', '=', ' '] + v, '=') == Some(
            (key + seq![' '], seq![' '] + v),
        ),
        trim(key + seq![' ']) == key,
        trim(seq![' '] + v) == v,
        plain_line(key + seq![' ', '=', ' '] + v),
{
    let l = key + seq![' ', '=', ' '] + v;
    let n = key.len() as int;
    assert forall|i: int| 0 <= i < l.len() implies l[i] != '#' && l[i] != '\n' by {
        if i < n {
            assert(l[i] == key[i]);
        } else if i >= n + 3 {
            assert(l[i] == v[i - n - 3]);
        }
    }
    lemma_find_from_is(l, '#', 0, l.len() as int);
    assert(before(l, '#') =~= l);
    assert(l[0] == key[0]);
    assert(l.last() == v.last());
    lemma_trim_solid(l);
    assert forall|i: int| 0 <= i < n implies l[i] != '=' by {
        assert(l[i] == key[i]);
    }
    lemma_find_from_is(l, '=', 0, n + 1);
    assert(l.subrange(0, n + 1) =~= key + seq![' ']);
    assert(l.subrange(n + 2, l.len() as int) =~= seq![' '] + v);
    lemma_trim_trail(key, seq![' ']);
    lemma_trim_solid(key);
    lemma_trim_lead(seq![' '], v);
    lemma_trim_solid(v);
}

proof fn lemma_decimal_solid(n: nat)
    ensures
        solid_value(decimal(n)),
{
    lemma_decimal_digits(n);
    let d = decimal(n);
    assert forall|i: int| 0 <= i < d.len() implies #[trigger] d[i] != '#' && d[i] != '=' && d[i]
        != '\n' && d[i] != '\r' by {
        assert(is_digit(d[i]));
    }
}

proof fn lemma_curve_text_solid(c: CurveModel)
    requires
        match c {
            CurveModel::Custom(p) => p.len() > 0,
            CurveModel::Auto => true,
        },
    ensures
        solid_value(curve_text(c)),
{
    match c {
        CurveModel::Auto => {
            reveal_strlit("auto");
        },
        CurveModel::Custom(p) => {
            lemma_points_text(p);
            let t = points_text(p);
            assert forall|i: int| 0 <= i < t.len() implies #[trigger] t[i] != '#' && t[i] != '='
                && t[i] != '\n' && t[i] != '\r' by {
                assert(point_char(t[i]));
            }
        },
    }
}

proof fn lemma_keys()
    ensures
        "max_temp = "@ == "max_temp"@ + seq![' ', '=', ' '],
        "curve = "@ == "curve"@ + seq![' ', '=', ' '],
        "custom_curve = "@ == "custom_curve"@ + seq![' ', '=', ' '],
        solid_value("max_temp"@),
        solid_value("curve"@),
        solid_value("custom_curve"@),
        "curve"@ != "max_temp"@,
        "custom_curve"@ != "max_temp"@,
        "custom_curve"@ != "curve"@,
{
    reveal_strlit("max_temp = ");
    reveal_strlit("curve = ");
    reveal_strlit("custom_curve = ");
    reveal_strlit("max_temp");
    reveal_strlit("curve");
    reveal_strlit("custom_curve");
    assert("max_temp = "@ =~= "max_temp"@ + seq![' ', '=', ' ']);
    assert("curve = "@ =~= "curve"@ + seq![' ', '=', ' ']);
    assert("custom_curve = "@ =~= "custom_curve"@ + seq![' ', '=', ' ']);
    assert("curve"@.len() != "max_temp"@.len());
    assert("custom_curve"@.len() != "max_temp"@.len());
    assert("custom_curve"@.len() != "curve"@.len());
}

proof fn lemma_apply_one(c: ConfigModel, l: Seq<char>, n: nat, c2: ConfigModel)
    requires
        apply_line(c, l, n) == Ok::<ConfigModel, Seq<char>>(c2),
    ensures
        apply_lines(c, seq![l], n) == Ok::<ConfigModel, Seq<char>>(c2),
{
    assert(seq![l][0] == l);
    assert(seq![l].drop_first() =~= Seq::<Seq<char>>::empty());
    assert(apply_lines(c2, Seq::<Seq<char>>::empty(), n + 1) == Ok::<ConfigModel, Seq<char>>(c2));
}

/// The settings file text splits into the lines it was written from.
proof fn lemma_render_lines(c: ConfigModel)
    requires
        well_formed(c),
    ensures
        lines(render_text(c)) == render_lines(c),
{
    lemma_keys();
    lemma_comment_blocks();
    lemma_decimal_solid(c.max_temp as nat);
    lemma_curve_text_solid(c.curve);
    let m = "max_temp = "@ + decimal(c.max_temp as nat);
    let cv = "curve = "@ + curve_text(c.curve);
    lemma_key_value("max_temp"@, decimal(c.max_temp as nat));
    lemma_key_value("curve"@, curve_text(c.curve));
    let a = max_temp_comments();
    let b = curve_comments();
    let r = remembered_lines(c);
    let ls = render_lines(c);
    match (c.curve, c.remembered_custom) {
        (CurveModel::Auto, Some(p)) => {
            lemma_curve_text_solid(CurveModel::Custom(p));
            lemma_key_value("custom_curve"@, points_text(p));
        },
        _ => {},
    }
    assert forall|i: int| 0 <= i < ls.len() implies plain_line(#[trigger] ls[i]) by {
        if i < 4 {
            assert(ls[i] == a[i]);
        } else if i == 4 {
            assert(ls[i] == m);
        } else if i < 10 {
            assert(ls[i] == b[i - 5]);
        } else if i == 10 {
            assert(ls[i] == cv);
        } else {
            assert(ls[i] == r[i - 11]);
        }
    }
    lemma_lines_joined(ls);
}

/// The `max_temp` line sets the max temp.
proof fn lemma_max_temp_line(c: ConfigModel, t: u32)
    requires
        MAX_TEMP_LOW <= t <= MAX_TEMP_HIGH,
    ensures
        apply_line(c, "max_temp = "@ + decimal(t as nat), 5) == Ok::<ConfigModel, Seq<char>>(
            ConfigModel { max_temp: t, ..c },
        ),
{
    lemma_keys();
    lemma_decimal_solid(t as nat);
    lemma_key_value("max_temp"@, decimal(t as nat));
    lemma_parse_decimal(t);
}

/// The `curve` line sets the curve.
proof fn lemma_curve_line(c: ConfigModel, curve: CurveModel)
    requires
        match curve {
            CurveModel::Custom(p) => valid_points(p),
            CurveModel::Auto => true,
        },
    ensures
        apply_line(c, "curve = "@ + curve_text(curve), 11) == Ok::<ConfigModel, Seq<char>>(
            ConfigModel { curve: curve, ..c },
        ),
{
    lemma_keys();
    lemma_curve_text_solid(curve);
    lemma_key_value("curve"@, curve_text(curve));
    curve_text_reads_back(curve);
}

/// The `custom_curve` line remembers the points.
proof fn lemma_custom_curve_line(c: ConfigModel, p: Seq<(u32, u32)>)
    requires
        valid_points(p),
    ensures
        apply_line(c, "custom_curve = "@ + points_text(p), 12) == Ok::<ConfigModel, Seq<char>>(
            ConfigModel { remembered_custom: Some(p), ..c },
        ),
{
    lemma_keys();
    lemma_curve_text_solid(CurveModel::Custom(p));
    lemma_key_value("custom_curve"@, points_text(p));
    curve_text_reads_back(CurveModel::Custom(p));
}

/// A file written by `render` reads back as the same settings.
pub proof fn render_then_parse(c: ConfigModel)
    requires
        well_formed(c),
    ensures
        parse_result(render_text(c)) == Ok::<ConfigModel, Seq<char>>(c),
{
    lemma_render_lines(c);
    lemma_comment_blocks();
    let m = "max_temp = "@ + decimal(c.max_temp as nat);
    let cv = "curve = "@ + curve_text(c.curve);
    let a = max_temp_comments();
    let b = curve_comments();
    let r = remembered_lines(c);
    let d = default_model();
    let c1 = ConfigModel { max_temp: c.max_temp, ..d };
    let c2 = ConfigModel { curve: c.curve, ..c1 };
    lemma_comments(d, a, 1);
    lemma_max_temp_line(d, c.max_temp);
    lemma_apply_one(d, m, 5, c1);
    lemma_comments(c1, b, 6);
    lemma_curve_line(c1, c.curve);
    lemma_apply_one(c1, cv, 11, c2);
    let after_curve = match (c.curve, c.remembered_custom) {
        (CurveModel::Auto, Some(p)) => {
            lemma_custom_curve_line(c2, p);
            lemma_apply_one(c2, "custom_curve = "@ + points_text(p), 12, c);
            c
        },
        _ => {
            assert(r =~= Seq::<Seq<char>>::empty());
            c2
        },
    };
    assert(apply_lines(c2, r, 12) == Ok::<ConfigModel, Seq<char>>(after_curve));
    lemma_apply_lines_concat(c1, seq![cv], r, 11);
    lemma_apply_lines_concat(c1, b, seq![cv] + r, 6);
    lemma_apply_lines_concat(d, seq![m], b + (seq![cv] + r), 5);
    lemma_apply_lines_concat(d, a, seq![m] + (b + (seq![cv] + r)), 1);
    assert(render_lines(c) =~= a + (seq![m] + (b + (seq![cv] + r))));
    assert(apply_lines(d, render_lines(c), 1) == Ok::<ConfigModel, Seq<char>>(after_curve));
    assert(normalized(after_curve) == c);
}

/// Switching to Auto keeps the custom curve, and switching back restores it, also when the
/// settings are written to the file and read back in between.
pub proof fn auto_and_back_keeps_custom(c: ConfigModel, p: Seq<(u32, u32)>)
    requires
        well_formed(c),
        c.curve == CurveModel::Custom(p),
    ensures
        custom_points_of(with_auto(c)) == Some(p),
        well_formed(with_auto(c)),
        parse_result(render_text(with_auto(c))) == Ok::<ConfigModel, Seq<char>>(with_auto(c)),
        with_remembered_custom(with_auto(c)) == Ok::<ConfigModel, Seq<char>>(c),
{
    render_then_parse(with_auto(c));
    lemma_custom_error_iff_invalid(p);
}

/// The settings a line leaves are in range when the ones before were: values are checked
/// before they are taken.
proof fn lemma_apply_line_in_range(c: ConfigModel, line: Seq<char>, n: nat)
    requires
        in_range(c),
    ensures
        apply_line(c, line, n) matches Ok(c2) ==> in_range(c2),
{
    let l = trim(before(line, '#'));
    if l.len() > 0 {
        if let Some((k, v)) = split_once(l, '=') {
            let value = trim(v);
            lemma_parsed_curve_valid(value);
        }
    }
}

/// Max temp in range and every curve valid; while a custom curve is in use a remembered one may
/// still be there until the file is read to the end.
pub open spec fn in_range(c: ConfigModel) -> bool {
    &&& MAX_TEMP_LOW <= c.max_temp <= MAX_TEMP_HIGH
    &&& match c.curve {
        CurveModel::Custom(p) => valid_points(p),
        CurveModel::Auto => true,
    }
    &&& match c.remembered_custom {
        Some(p) => valid_points(p),
        None => true,
    }
}

proof fn lemma_parsed_curve_valid(v: Seq<char>)
    ensures
        parse_curve_result(v) matches Ok(CurveModel::Custom(p)) ==> valid_points(p),
{
    if let Ok(CurveModel::Custom(p)) = parse_curve_result(v) {
        lemma_custom_error_iff_invalid(p);
    }
}

proof fn lemma_apply_lines_in_range(c: ConfigModel, ls: Seq<Seq<char>>, n: nat)
    requires
        in_range(c),
    ensures
        apply_lines(c, ls, n) matches Ok(c2) ==> in_range(c2),
    decreases ls.len(),
{
    if ls.len() > 0 {
        lemma_apply_line_in_range(c, ls[0], n);
        if let Ok(next) = apply_line(c, ls[0], n) {
            lemma_apply_lines_in_range(next, ls.drop_first(), n + 1);
        }
    }
}

/// Whatever a settings file holds, if it parses, the settings are safe to run with: max temp
/// within 60..=90 °C, any custom curve (in use or remembered) within the curve rules, and a
/// remembered curve only while Auto runs. (This is why users may edit the file.)
pub proof fn parsed_settings_are_in_range(text: Seq<char>)
    ensures
        parse_result(text) matches Ok(c) ==> well_formed(c),
{
    lemma_apply_lines_in_range(default_model(), lines(text), 1);
}

/// Switching to Auto never loses the user's custom curve, whatever runs now: Auto runs
/// afterwards, the maximum temperature is untouched, the custom points are the same as before
/// (also when Auto already ran, so switching again changes nothing), and switching back to the
/// custom curve afterwards gives what it would have given before.
pub proof fn auto_keeps_custom_points(c: ConfigModel)
    ensures
        with_auto(c).curve == CurveModel::Auto,
        with_auto(c).max_temp == c.max_temp,
        custom_points_of(with_auto(c)) == custom_points_of(c),
        c.curve == CurveModel::Auto ==> with_auto(c) == c,
        c.curve == CurveModel::Auto ==> with_auto(c).remembered_custom == c.remembered_custom,
        with_auto(with_auto(c)) == with_auto(c),
        with_remembered_custom(with_auto(c)) == with_remembered_custom(c),
{
}

} // verus!
