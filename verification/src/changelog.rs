//! The About page's texts: the changelog split into releases with their blocks, and the
//! version of each library the program was built with.

use vstd::prelude::*;
use crate::text::{
    char_views, chars_of, find_char, find_from, lemma_find_from, lines, push_chars, push_str,
    split_lines, starts_with, starts_with_chars, string_of, chars_equal, strip_prefix, strip_prefix_chars,
    trim, trim_chars, trim_end, trim_start, copy_range,
};

verus! {

/// One block of a release: a section heading ("Added"), a bullet or a paragraph.
pub enum Block {
    Heading(String),
    Bullet(String),
    Text(String),
}

pub ghost enum BlockModel {
    Heading(Seq<char>),
    Bullet(Seq<char>),
    Text(Seq<char>),
}

pub struct Release {
    /// `version - date`, or `Unreleased`.
    pub title: String,
    pub blocks: Vec<Block>,
}

pub open spec fn block_model(b: Block) -> BlockModel {
    match b {
        Block::Heading(s) => BlockModel::Heading(s@),
        Block::Bullet(s) => BlockModel::Bullet(s@),
        Block::Text(s) => BlockModel::Text(s@),
    }
}

pub open spec fn blocks_view(v: Seq<Block>) -> Seq<BlockModel> {
    v.map_values(|b: Block| block_model(b))
}

pub open spec fn releases_view(v: Seq<Release>) -> Seq<(Seq<char>, Seq<BlockModel>)> {
    v.map_values(|r: Release| (r.title@, blocks_view(r.blocks@)))
}

/// `s` without the characters in `drop`.
pub open spec fn without_any(s: Seq<char>, drop: Seq<char>) -> Seq<char>
    decreases s.len(),
{
    if s.len() == 0 {
        seq![]
    } else {
        without_any(s.drop_last(), drop) + if drop.contains(s.last()) {
            seq![]
        } else {
            seq![s.last()]
        }
    }
}

/// The blocks of a release after one more line of it (one without a release title).
pub open spec fn with_block_line(blocks: Seq<BlockModel>, line: Seq<char>, clean: Seq<char>) -> Seq<BlockModel> {
    match strip_prefix(clean, "### "@) {
        Some(heading) => blocks.push(BlockModel::Heading(heading)),
        None => match strip_prefix(clean, "- "@) {
            Some(item) => blocks.push(BlockModel::Bullet(item)),
            None => if starts_with(line, "  "@) && blocks.len() > 0 && blocks.last() is Bullet {
                blocks.update(
                    blocks.len() - 1,
                    BlockModel::Bullet(blocks.last()->Bullet_0 + seq![' '] + trim(clean)),
                )
            } else if trim(clean).len() > 0 {
                blocks.push(BlockModel::Text(trim(clean)))
            } else {
                blocks
            },
        },
    }
}

/// The releases after one more line: `## ` starts a release (its title without brackets),
/// `### ` a heading, `- ` a bullet, an indented line continues the bullet before it, and any
/// other text is a paragraph. Inline code marks are dropped; lines before the first release
/// are not shown.
pub open spec fn with_line(rs: Seq<(Seq<char>, Seq<BlockModel>)>, line: Seq<char>) -> Seq<
    (Seq<char>, Seq<BlockModel>),
> {
    let clean = without_any(line, seq!['`']);
    match strip_prefix(clean, "## "@) {
        Some(title) => rs.push((without_any(title, seq!['[', ']']), seq![])),
        None => if rs.len() == 0 {
            rs
        } else {
            rs.update(
                rs.len() - 1,
                (rs.last().0, with_block_line(rs.last().1, line, clean)),
            )
        },
    }
}

pub open spec fn releases_of_lines(ls: Seq<Seq<char>>) -> Seq<(Seq<char>, Seq<BlockModel>)>
    decreases ls.len(),
{
    if ls.len() == 0 {
        seq![]
    } else {
        with_line(releases_of_lines(ls.drop_last()), ls.last())
    }
}

fn without_any_chars(v: &[char], a: char, b: char) -> (r: Vec<char>)
    ensures
        r@ == without_any(v@, seq![a, b]),
{
    let mut r: Vec<char> = Vec::new();
    let mut i: usize = 0;
    while i < v.len()
        invariant
            i <= v.len(),
            r@ == without_any(v@.take(i as int), seq![a, b]),
        decreases v.len() - i,
    {
        let c = v[i];
        proof {
            assert(v@.take(i + 1).drop_last() =~= v@.take(i as int));
            assert(v@.take(i + 1).last() == c);
            assert(seq![a, b].contains(c) <==> (c == a || c == b)) by {
                if c == a {
                    assert(seq![a, b][0] == c);
                }
                if c == b {
                    assert(seq![a, b][1] == c);
                }
            }
        }
        if c != a && c != b {
            r.push(c);
        }
        i = i + 1;
        assert(r@ =~= without_any(v@.take(i as int), seq![a, b]));
    }
    assert(v@.take(i as int) =~= v@);
    r
}

proof fn lemma_without_one(s: Seq<char>, c: char)
    ensures
        without_any(s, seq![c]) == without_any(s, seq![c, c]),
    decreases s.len(),
{
    if s.len() > 0 {
        lemma_without_one(s.drop_last(), c);
        assert(seq![c].contains(s.last()) <==> s.last() == c) by {
            if s.last() == c {
                assert(seq![c][0] == c);
            }
        }
        assert(seq![c, c].contains(s.last()) <==> s.last() == c) by {
            if s.last() == c {
                assert(seq![c, c][0] == c);
            }
        }
    }
}

fn is_bullet(b: &Block) -> (r: bool)
    ensures
        r == (block_model(*b) is Bullet),
{
    match b {
        Block::Bullet(_) => true,
        _ => false,
    }
}

fn apply_line(out: &mut Vec<Release>, line: &[char])
    ensures
        releases_view(final(out)@) == with_line(releases_view(old(out)@), line@),
{
    let clean = without_any_chars(line, '`', '`');
    proof {
        lemma_without_one(line@, '`');
    }
    if let Some(title) = strip_prefix_chars(clean.as_slice(), "## ") {
        let t = without_any_chars(title.as_slice(), '[', ']');
        let ghost before = out@;
        out.push(Release { title: string_of(t.as_slice()), blocks: Vec::new() });
        assert(blocks_view(Seq::<Block>::empty()) =~= Seq::<BlockModel>::empty());
        assert(releases_view(out@) =~= releases_view(before).push((t@, Seq::<BlockModel>::empty())));
        return;
    }
    if out.len() == 0 {
        return;
    }
    let ghost before = out@;
    let ghost rs = releases_view(before);
    let mut last = match out.pop() {
        Some(r) => r,
        None => {
            return;
        },
    };
    assert(releases_view(out@) =~= rs.drop_last());
    assert(releases_view(before).last() == (last.title@, blocks_view(last.blocks@)));
    let ghost blocks = blocks_view(last.blocks@);
    if let Some(heading) = strip_prefix_chars(clean.as_slice(), "### ") {
        last.blocks.push(Block::Heading(string_of(heading.as_slice())));
        assert(blocks_view(last.blocks@) =~= blocks.push(BlockModel::Heading(heading@)));
    } else if let Some(item) = strip_prefix_chars(clean.as_slice(), "- ") {
        last.blocks.push(Block::Bullet(string_of(item.as_slice())));
        assert(blocks_view(last.blocks@) =~= blocks.push(BlockModel::Bullet(item@)));
    } else {
        let indented = starts_with_chars(line, "  ");
        let t = trim_chars(clean.as_slice());
        let n = last.blocks.len();
        if indented && n > 0 && is_bullet(&last.blocks[n - 1]) {
            let ghost all = last.blocks@;
            let b = last.blocks.pop();
            assert(last.blocks@ =~= all.drop_last());
            match b {
                Some(Block::Bullet(s)) => {
                    let ghost old_item = s@;
                    assert(block_model(all.last()) == BlockModel::Bullet(old_item));
                    let mut item = s;
                    item.push(' ');
                    push_chars(&mut item, t.as_slice());
                    assert(item@ =~= old_item + seq![' '] + t@);
                    last.blocks.push(Block::Bullet(item));
                    assert(blocks.last() == BlockModel::Bullet(old_item));
                    assert(blocks_view(last.blocks@) =~= blocks.update(
                        blocks.len() - 1,
                        BlockModel::Bullet(old_item + seq![' '] + t@),
                    ));
                },
                _ => {},
            }
        } else if t.len() > 0 {
            last.blocks.push(Block::Text(string_of(t.as_slice())));
            assert(blocks_view(last.blocks@) =~= blocks.push(BlockModel::Text(t@)));
        }
    }
    out.push(last);
    assert(releases_view(out@) =~= with_line(rs, line@));
}

/// Splits the changelog into releases (`## [version] - date`) with their blocks, in the file's
/// order. Bullet continuation lines (indented) are joined; inline code marks are dropped.
pub fn releases(changelog: &str) -> (r: Vec<Release>)
    ensures
        releases_view(r@) == releases_of_lines(lines(changelog@)),
{
    let text = chars_of(changelog);
    let ls = split_lines(text.as_slice());
    let ghost views = char_views(ls@);
    let mut out: Vec<Release> = Vec::new();
    let mut i: usize = 0;
    assert(releases_view(out@) =~= releases_of_lines(views.take(0)));
    while i < ls.len()
        invariant
            i <= ls@.len(),
            views == char_views(ls@),
            releases_view(out@) == releases_of_lines(views.take(i as int)),
        decreases ls@.len() - i,
    {
        apply_line(&mut out, ls[i].as_slice());
        proof {
            assert(views.take(i + 1).drop_last() =~= views.take(i as int));
            assert(views.take(i + 1).last() == ls@[i as int]@);
        }
        i = i + 1;
    }
    assert(views.take(i as int) =~= views);
    out
}

/// The `;`-separated pieces of a text, empty ones included.
pub open spec fn pieces(s: Seq<char>) -> Seq<Seq<char>>
    decreases s.len(),
{
    let j = find_from(s, ';', 0);
    if 0 <= j < s.len() {
        seq![s.take(j)] + pieces(s.skip(j + 1))
    } else {
        seq![s]
    }
}

/// The version after `name=` in the first piece that starts so.
pub open spec fn version_in(ps: Seq<Seq<char>>, name: Seq<char>) -> Option<Seq<char>>
    decreases ps.len(),
{
    if ps.len() == 0 {
        None
    } else {
        match strip_prefix(ps[0], name + "="@) {
            Some(v) => Some(v),
            None => version_in(ps.drop_first(), name),
        }
    }
}

/// The version of library `name` in `deps`, a list of `name=version` pairs separated by `;`, or
/// `?` if it is not listed.
pub open spec fn dep_version_of(deps: Seq<char>, name: Seq<char>) -> Seq<char> {
    match version_in(pieces(deps), name) {
        Some(v) => v,
        None => "?"@,
    }
}

pub fn dep_version(deps: &str, name: &str) -> (r: String)
    ensures
        r@ == dep_version_of(deps@, name@),
{
    let mut key = String::new();
    push_str(&mut key, name);
    push_str(&mut key, "=");
    let text = chars_of(deps);
    let mut rest = copy_range(text.as_slice(), 0, text.len());
    assert(rest@ =~= deps@);
    loop
        invariant
            key@ == name@ + "="@,
            version_in(pieces(deps@), name@) == version_in(pieces(rest@), name@),
        decreases rest@.len(),
    {
        let j = find_char(rest.as_slice(), ';');
        proof {
            lemma_find_from(rest@, ';', 0);
        }
        let piece = copy_range(rest.as_slice(), 0, j);
        assert(pieces(rest@)[0] == piece@);
        match strip_prefix_chars(piece.as_slice(), key.as_str()) {
            Some(v) => {
                return string_of(v.as_slice());
            },
            None => {},
        }
        if j == rest.len() {
            assert(pieces(rest@).drop_first() =~= Seq::<Seq<char>>::empty());
            assert(version_in(Seq::<Seq<char>>::empty(), name@) is None);
            assert(version_in(pieces(rest@), name@) is None);
            let mut q = String::new();
            push_str(&mut q, "?");
            return q;
        }
        let next = copy_range(rest.as_slice(), j + 1, rest.len());
        assert(pieces(rest@).drop_first() =~= pieces(next@));
        rest = next;
    }
}

// ----- what the page never shows -----

/// No `c` anywhere in `s`.
pub open spec fn free_of(s: Seq<char>, c: char) -> bool {
    forall|i: int| 0 <= i < s.len() ==> s[i] != c
}

pub open spec fn block_text(b: BlockModel) -> Seq<char> {
    match b {
        BlockModel::Heading(t) => t,
        BlockModel::Bullet(t) => t,
        BlockModel::Text(t) => t,
    }
}

/// A release as shown: its title without code marks or brackets, its blocks without code marks.
pub open spec fn shown_clean(r: (Seq<char>, Seq<BlockModel>)) -> bool {
    &&& free_of(r.0, '`')
    &&& free_of(r.0, '[')
    &&& free_of(r.0, ']')
    &&& forall|j: int| 0 <= j < r.1.len() ==> free_of(#[trigger] block_text(r.1[j]), '`')
}

proof fn lemma_without_any(s: Seq<char>, drop: Seq<char>, c: char)
    requires
        drop.contains(c),
    ensures
        free_of(without_any(s, drop), c),
    decreases s.len(),
{
    if s.len() > 0 {
        lemma_without_any(s.drop_last(), drop, c);
        let w = without_any(s.drop_last(), drop);
        if drop.contains(s.last()) {
            assert(without_any(s, drop) =~= w);
        } else {
            assert(s.last() != c);
            assert(without_any(s, drop) =~= w + seq![s.last()]);
        }
    }
}

proof fn lemma_trim_free(s: Seq<char>, c: char)
    requires
        free_of(s, c),
    ensures
        free_of(trim_start(s), c),
        free_of(trim_end(s), c),
        free_of(trim(s), c),
    decreases s.len(),
{
    if s.len() > 0 {
        assert(free_of(s.drop_first(), c)) by {
            assert forall|i: int| 0 <= i < s.drop_first().len() implies s.drop_first()[i] != c by {
                assert(s.drop_first()[i] == s[i + 1]);
            }
        }
        assert(free_of(s.drop_last(), c)) by {
            assert forall|i: int| 0 <= i < s.drop_last().len() implies s.drop_last()[i] != c by {
                assert(s.drop_last()[i] == s[i]);
            }
        }
        lemma_trim_free(s.drop_first(), c);
        lemma_trim_free(s.drop_last(), c);
    }
    lemma_trim_end_free(trim_start(s), c);
}

proof fn lemma_trim_end_free(s: Seq<char>, c: char)
    requires
        free_of(s, c),
    ensures
        free_of(trim_end(s), c),
    decreases s.len(),
{
    if s.len() > 0 {
        assert(free_of(s.drop_last(), c)) by {
            assert forall|i: int| 0 <= i < s.drop_last().len() implies s.drop_last()[i] != c by {
                assert(s.drop_last()[i] == s[i]);
            }
        }
        lemma_trim_end_free(s.drop_last(), c);
    }
}

proof fn lemma_strip_free(s: Seq<char>, p: Seq<char>, c: char)
    requires
        free_of(s, c),
    ensures
        strip_prefix(s, p) matches Some(rest) ==> free_of(rest, c),
{
    if let Some(rest) = strip_prefix(s, p) {
        assert forall|i: int| 0 <= i < rest.len() implies rest[i] != c by {
            assert(rest[i] == s[i + p.len()]);
        }
    }
}

proof fn lemma_with_line(rs: Seq<(Seq<char>, Seq<BlockModel>)>, line: Seq<char>)
    requires
        forall|i: int| 0 <= i < rs.len() ==> shown_clean(#[trigger] rs[i]),
    ensures
        forall|i: int| 0 <= i < with_line(rs, line).len() ==> shown_clean(#[trigger] with_line(rs, line)[i]),
{
    let clean = without_any(line, seq!['`']);
    assert(seq!['`'].contains('`')) by {
        assert(seq!['`'][0] == '`');
    }
    assert(seq!['[', ']'].contains('[')) by {
        assert(seq!['[', ']'][0] == '[');
    }
    assert(seq!['[', ']'].contains(']')) by {
        assert(seq!['[', ']'][1] == ']');
    }
    lemma_without_any(line, seq!['`'], '`');
    lemma_trim_free(clean, '`');
    match strip_prefix(clean, "## "@) {
        Some(title) => {
            lemma_strip_free(clean, "## "@, '`');
            let t = without_any(title, seq!['[', ']']);
            lemma_without_any(title, seq!['[', ']'], '[');
            lemma_without_any(title, seq!['[', ']'], ']');
            assert(free_of(t, '`')) by {
                lemma_without_any_keeps_free(title, seq!['[', ']'], '`');
            }
            let r = (t, Seq::<BlockModel>::empty());
            assert(shown_clean(r));
            assert forall|i: int| 0 <= i < with_line(rs, line).len() implies shown_clean(
                #[trigger] with_line(rs, line)[i],
            ) by {
                if i < rs.len() {
                    assert(with_line(rs, line)[i] == rs[i]);
                } else {
                    assert(with_line(rs, line)[i] == r);
                }
            }
        },
        None => {
            if rs.len() > 0 {
                let last = rs.last();
                let blocks = last.1;
                let nb = with_block_line(blocks, line, clean);
                lemma_strip_free(clean, "### "@, '`');
                lemma_strip_free(clean, "- "@, '`');
                assert(shown_clean(last));
                assert forall|j: int| 0 <= j < nb.len() implies free_of(#[trigger] block_text(nb[j]), '`') by {
                    if j < blocks.len() - 1 || (j < blocks.len() && nb[j] == blocks[j]) {
                        assert(nb[j] == blocks[j]);
                    } else if j == blocks.len() - 1 && j < blocks.len() {
                        let joined = blocks.last()->Bullet_0 + seq![' '] + trim(clean);
                        assert(block_text(blocks[j]) == blocks.last()->Bullet_0);
                        assert forall|k: int| 0 <= k < joined.len() implies joined[k] != '`' by {
                            if k < blocks.last()->Bullet_0.len() {
                            } else if k == blocks.last()->Bullet_0.len() {
                            } else {
                                assert(joined[k] == trim(clean)[k - blocks.last()->Bullet_0.len() - 1]);
                            }
                        }
                    }
                }
                assert forall|i: int| 0 <= i < with_line(rs, line).len() implies shown_clean(
                    #[trigger] with_line(rs, line)[i],
                ) by {
                    if i < rs.len() - 1 {
                        assert(with_line(rs, line)[i] == rs[i]);
                    } else {
                        assert(with_line(rs, line)[i] == (last.0, nb));
                    }
                }
            }
        },
    }
}

proof fn lemma_without_any_keeps_free(s: Seq<char>, drop: Seq<char>, c: char)
    requires
        free_of(s, c),
    ensures
        free_of(without_any(s, drop), c),
    decreases s.len(),
{
    if s.len() > 0 {
        assert(free_of(s.drop_last(), c)) by {
            assert forall|i: int| 0 <= i < s.drop_last().len() implies s.drop_last()[i] != c by {
                assert(s.drop_last()[i] == s[i]);
            }
        }
        lemma_without_any_keeps_free(s.drop_last(), drop, c);
        let w = without_any(s.drop_last(), drop);
        if drop.contains(s.last()) {
            assert(without_any(s, drop) =~= w);
        } else {
            assert(without_any(s, drop) =~= w + seq![s.last()]);
        }
    }
}

/// Inline code marks are dropped, and release titles lose their brackets: no title or block of
/// any release holds a backtick, and no title holds `[` or `]`.
pub proof fn releases_show_no_code_marks(ls: Seq<Seq<char>>)
    ensures
        forall|i: int|
            0 <= i < releases_of_lines(ls).len() ==> shown_clean(#[trigger] releases_of_lines(ls)[i]),
    decreases ls.len(),
{
    if ls.len() > 0 {
        releases_show_no_code_marks(ls.drop_last());
        lemma_with_line(releases_of_lines(ls.drop_last()), ls.last());
    }
}

/// Where " - " first occurs in `t` at or after `i`.
pub open spec fn dash_from(t: Seq<char>, i: int) -> Option<int>
    decreases t.len() - i,
{
    if i < 0 || i + 3 > t.len() {
        None
    } else if t.subrange(i, i + 3) == " - "@ {
        Some(i)
    } else {
        dash_from(t, i + 1)
    }
}

/// A release title split at its first " - " into version and date; without one, the whole
/// title is the version and the date is empty.
pub open spec fn title_parts(t: Seq<char>) -> (Seq<char>, Seq<char>) {
    match dash_from(t, 0) {
        Some(i) => (t.subrange(0, i), t.subrange(i + 3, t.len() as int)),
        None => (t, Seq::empty()),
    }
}

/// How a release is headed on the About page: its label, its date, and its badge ("Upcoming"
/// for unreleased changes, "Latest" for the newest published release).
pub open spec fn heading_of(title: Seq<char>, latest: bool) -> (Seq<char>, Seq<char>, Option<Seq<char>>) {
    let version = title_parts(title).0;
    (
        if version == "Unreleased"@ {
            "Unreleased changes"@
        } else {
            "Version "@ + version
        },
        title_parts(title).1,
        if version == "Unreleased"@ {
            Some("Upcoming"@)
        } else if latest {
            Some("Latest"@)
        } else {
            None
        },
    )
}

proof fn lemma_dash_from_bounds(t: Seq<char>, j: int)
    ensures
        dash_from(t, j) matches Some(i) ==> 0 <= j <= i && i + 3 <= t.len(),
    decreases t.len() - j,
{
    if !(j < 0 || j + 3 > t.len()) && t.subrange(j, j + 3) != " - "@ {
        lemma_dash_from_bounds(t, j + 1);
    }
}

/// Where " - " first occurs in `v`.
fn find_dash(v: &[char]) -> (r: Option<usize>)
    ensures
        match r {
            Some(i) => dash_from(v@, 0) == Some(i as int),
            None => dash_from(v@, 0) is None,
        },
{
    proof {
        reveal_strlit(" - ");
        assert(" - "@.len() == 3 && " - "@[0] == ' ' && " - "@[1] == '-' && " - "@[2] == ' ');
    }
    let n = v.len();
    let mut i: usize = 0;
    while i < n && n - i >= 3
        invariant
            i <= n,
            n == v@.len(),
            " - "@.len() == 3 && " - "@[0] == ' ' && " - "@[1] == '-' && " - "@[2] == ' ',
            dash_from(v@, 0) == dash_from(v@, i as int),
        decreases n - i,
    {
        if v[i] == ' ' && v[i + 1] == '-' && v[i + 2] == ' ' {
            assert(v@.subrange(i as int, i as int + 3) =~= " - "@);
            return Some(i);
        }
        assert(v@.subrange(i as int, i as int + 3) != " - "@) by {
            if v@.subrange(i as int, i as int + 3) == " - "@ {
                assert(v@.subrange(i as int, i as int + 3)[0] == v@[i as int]);
                assert(v@.subrange(i as int, i as int + 3)[1] == v@[i as int + 1]);
                assert(v@.subrange(i as int, i as int + 3)[2] == v@[i as int + 2]);
            }
        }
        i = i + 1;
    }
    None
}

/// The heading of one release on the About page, from its title and whether it is the newest
/// published release: the label, the date (empty if the title has none) and the badge.
pub fn release_heading(title: &str, latest: bool) -> (r: (String, String, Option<&'static str>))
    ensures
        r.0@ == heading_of(title@, latest).0,
        r.1@ == heading_of(title@, latest).1,
        match r.2 {
            Some(b) => heading_of(title@, latest).2 == Some(b@),
            None => heading_of(title@, latest).2 is None,
        },
{
    let v = chars_of(title);
    let n = v.len();
    proof {
        lemma_dash_from_bounds(v@, 0);
    }
    let (version, date) = match find_dash(v.as_slice()) {
        Some(i) => (copy_range(v.as_slice(), 0, i), copy_range(v.as_slice(), i + 3, n)),
        None => (v.clone(), Vec::new()),
    };
    proof {
        assert(version@ == title_parts(title@).0);
        assert(date@ =~= title_parts(title@).1);
    }
    let unreleased = chars_equal(version.as_slice(), "Unreleased");
    let mut label = String::new();
    if unreleased {
        push_str(&mut label, "Unreleased changes");
    } else {
        push_str(&mut label, "Version ");
        push_chars(&mut label, version.as_slice());
    }
    let badge = if unreleased {
        Some("Upcoming")
    } else if latest {
        Some("Latest")
    } else {
        None
    };
    (label, string_of(date.as_slice()), badge)
}

} // verus!
