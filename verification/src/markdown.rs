//! Extraction of a finding from markdown text: a title, the declared tags
//! and the outbound links.
//!
//! The text is read line by line, lines ending at `\n`.
//!
//! * The title is the rest of the first line that starts with `# ` and has
//!   more than white space after it, trimmed; without such a line it is the
//!   fallback that the caller supplies.
//! * A line that starts with `tags:` declares tags: the rest of the line is a
//!   comma-separated list. Tags are trimmed, empty ones are dropped, and of
//!   tags equal up to case the first is kept.
//! * A line of the form `[label]: target` defines a reference.
//! * Elsewhere `[text](target)` is a link to `target`, and `[text][label]`
//!   a link to the target that `label` is defined with (`[text][]` looks up
//!   `text`); labels compare without regard to case. Both give the same
//!   kind of link: the target, and the text as context where there is one.
//!   The text of a link holds no `[`: of nested brackets the innermost
//!   opens the link.
//!
//! Nothing is an error: text that fits none of these forms yields no title,
//! tag or link, and the rest of the document is still read.

use vstd::prelude::*;
use crate::tags::{merge_pieces, merged};
use crate::text::{
    chars_of,
    chars_start_with,
    eq_folded,
    find_char,
    find_from,
    folded,
    split,
    split_chars,
    starts_with,
    string_of,
    string_views,
    sub_chars,
    trim_bounds,
    trimmed,
    views,
};

verus! {

/// An outbound link: where it points, and the text it was attached to.
#[derive(Debug)]
pub struct Link {
    pub target: String,
    pub context: Option<String>,
}

/// Mathematical form of a [`Link`].
pub struct LinkView {
    pub target: Seq<char>,
    pub context: Option<Seq<char>>,
}

impl View for Link {
    type V = LinkView;

    open spec fn view(&self) -> LinkView {
        LinkView {
            target: self.target@,
            context: match self.context {
                Some(c) => Some(c@),
                None => None,
            },
        }
    }
}

/// What was extracted from one resource.
#[derive(Debug)]
pub struct Finding {
    pub title: String,
    pub links: Vec<Link>,
    pub tags: Vec<String>,
}

/// Mathematical form of a [`Finding`].
pub struct FindingView {
    pub title: Seq<char>,
    pub links: Seq<LinkView>,
    pub tags: Seq<Seq<char>>,
}

/// The views of a sequence of links.
pub open spec fn link_views(links: Seq<Link>) -> Seq<LinkView> {
    links.map_values(|l: Link| l@)
}

impl View for Finding {
    type V = FindingView;

    open spec fn view(&self) -> FindingView {
        FindingView {
            title: self.title@,
            links: link_views(self.links@),
            tags: string_views(self.tags@),
        }
    }
}

/// The mark that opens a top-level heading.
pub open spec fn heading_mark() -> Seq<char> {
    seq!['#', ' ']
}

/// The mark that opens a line of declared tags.
pub open spec fn tags_mark() -> Seq<char> {
    seq!['t', 'a', 'g', 's', ':']
}

/// The lines of a text.
pub open spec fn lines(text: Seq<char>) -> Seq<Seq<char>> {
    split(text, '\n')
}

/// The title that a line gives, if it is a top-level heading.
pub open spec fn heading_of(line: Seq<char>) -> Option<Seq<char>> {
    if starts_with(line, heading_mark()) && trimmed(line.skip(2)).len() > 0 {
        Some(trimmed(line.skip(2)))
    } else {
        None
    }
}

/// The title of the first heading among the lines.
pub open spec fn title_in(ls: Seq<Seq<char>>) -> Option<Seq<char>>
    decreases ls.len(),
{
    if ls.len() == 0 {
        None
    } else if heading_of(ls[0]) is Some {
        heading_of(ls[0])
    } else {
        title_in(ls.drop_first())
    }
}

/// The comma-separated pieces that a line declares as tags.
pub open spec fn tag_pieces(line: Seq<char>) -> Seq<Seq<char>> {
    if starts_with(line, tags_mark()) {
        split(line.skip(5), ',')
    } else {
        seq![]
    }
}

/// The tags declared by the lines.
pub open spec fn declared_in(ls: Seq<Seq<char>>) -> Seq<Seq<char>>
    decreases ls.len(),
{
    if ls.len() == 0 {
        seq![]
    } else {
        merged(declared_in(ls.drop_last()), tag_pieces(ls.last()))
    }
}

/// The reference that a line defines, as label and target.
pub open spec fn definition_of(line: Seq<char>) -> Option<(Seq<char>, Seq<char>)> {
    let close = find_from(line, ']', 1);
    if line.len() > 0 && line[0] == '[' && close + 1 < line.len() && line[close + 1] == ':'
        && trimmed(line.subrange(1, close)).len() > 0 && trimmed(line.skip(close + 2)).len() > 0 {
        Some((trimmed(line.subrange(1, close)), trimmed(line.skip(close + 2))))
    } else {
        None
    }
}

/// The references defined by the lines, in order.
pub open spec fn definitions_in(ls: Seq<Seq<char>>) -> Seq<(Seq<char>, Seq<char>)>
    decreases ls.len(),
{
    if ls.len() == 0 {
        seq![]
    } else {
        let before = definitions_in(ls.drop_last());
        match definition_of(ls.last()) {
            Some(d) => before.push(d),
            None => before,
        }
    }
}

/// The target of the first definition whose label equals `label` up to
/// case.
pub open spec fn resolve(defs: Seq<(Seq<char>, Seq<char>)>, label: Seq<char>) -> Option<
    Seq<char>,
>
    decreases defs.len(),
{
    if defs.len() == 0 {
        None
    } else if folded(defs[0].0) == folded(label) {
        Some(defs[0].1)
    } else {
        resolve(defs.drop_first(), label)
    }
}

/// The link to `target` that was attached to `text`.
pub open spec fn link_to(target: Seq<char>, text: Seq<char>) -> LinkView {
    LinkView {
        target,
        context: if trimmed(text).len() > 0 {
            Some(trimmed(text))
        } else {
            None
        },
    }
}

/// What the `[` at position `i` of `line` opens: the link, if it opens one,
/// and the position at which reading goes on.
pub open spec fn link_at(line: Seq<char>, defs: Seq<(Seq<char>, Seq<char>)>, i: int) -> (
    Option<LinkView>,
    int,
) {
    let close = find_from(line, ']', i + 1);
    let text = line.subrange(i + 1, close);
    if find_from(line, '[', i + 1) < close {
        (None, i + 1)
    } else if close + 1 < line.len() && line[close + 1] == '(' {
        let end = find_from(line, ')', close + 2);
        let target = trimmed(line.subrange(close + 2, end));
        if end >= line.len() {
            (None, i + 1)
        } else if target.len() > 0 {
            (Some(link_to(target, text)), end + 1)
        } else {
            (None, end + 1)
        }
    } else if close + 1 < line.len() && line[close + 1] == '[' {
        let end = find_from(line, ']', close + 2);
        let given = trimmed(line.subrange(close + 2, end));
        let label = if given.len() > 0 {
            given
        } else {
            trimmed(text)
        };
        if end >= line.len() {
            (None, i + 1)
        } else {
            match resolve(defs, label) {
                Some(target) => (Some(link_to(target, text)), end + 1),
                None => (None, end + 1),
            }
        }
    } else {
        (None, i + 1)
    }
}

/// The links of `line` from position `i` on.
pub open spec fn links_from(line: Seq<char>, defs: Seq<(Seq<char>, Seq<char>)>, i: int) -> Seq<
    LinkView,
>
    decreases line.len() - i,
{
    if i < 0 || i >= line.len() {
        seq![]
    } else if line[i] != '[' {
        links_from(line, defs, i + 1)
    } else {
        let (link, next) = link_at(line, defs, i);
        let found = match link {
            Some(l) => seq![l],
            None => seq![],
        };
        if i < next <= line.len() {
            found + links_from(line, defs, next)
        } else {
            found
        }
    }
}

/// The links of one line: none for a line that defines a reference.
pub open spec fn line_links(line: Seq<char>, defs: Seq<(Seq<char>, Seq<char>)>) -> Seq<LinkView> {
    if definition_of(line) is Some {
        seq![]
    } else {
        links_from(line, defs, 0)
    }
}

/// The links of the lines, in order.
pub open spec fn links_in(ls: Seq<Seq<char>>, defs: Seq<(Seq<char>, Seq<char>)>) -> Seq<LinkView>
    decreases ls.len(),
{
    if ls.len() == 0 {
        seq![]
    } else {
        links_in(ls.drop_last(), defs) + line_links(ls.last(), defs)
    }
}

/// The finding that `text` yields, with `fallback` for a title where the
/// text has no heading.
pub open spec fn finding_of(text: Seq<char>, fallback: Seq<char>) -> FindingView {
    let ls = lines(text);
    FindingView {
        title: match title_in(ls) {
            Some(t) => t,
            None => fallback,
        },
        links: links_in(ls, definitions_in(ls)),
        tags: declared_in(ls),
    }
}

/// The views of a sequence of definitions.
pub open spec fn definition_views(defs: Seq<(Vec<char>, Vec<char>)>) -> Seq<
    (Seq<char>, Seq<char>),
> {
    defs.map_values(|d: (Vec<char>, Vec<char>)| (d.0@, d.1@))
}

/// `v[from..to]` without its surrounding white space.
fn trimmed_chars(v: &Vec<char>, from: usize, to: usize) -> (r: Vec<char>)
    requires
        from <= to <= v.len(),
    ensures
        r@ == trimmed(v@.subrange(from as int, to as int)),
{
    let (a, b) = trim_bounds(v, from, to);
    sub_chars(v, a, b)
}

/// The title that `line` gives, if it is a top-level heading.
fn line_heading(line: &Vec<char>) -> (r: Option<Vec<char>>)
    ensures
        r is Some <==> heading_of(line@) is Some,
        r matches Some(t) ==> heading_of(line@) == Some(t@),
{
    let mark: Vec<char> = vec!['#', ' '];
    assert(mark@ =~= heading_mark());
    if !chars_start_with(line, &mark) {
        return None;
    }
    let t = trimmed_chars(line, 2, line.len());
    assert(line@.subrange(2, line.len() as int) == line@.skip(2));
    if t.len() == 0 {
        None
    } else {
        Some(t)
    }
}

/// The pieces that `line` declares as tags.
fn line_tag_pieces(line: &Vec<char>) -> (r: Vec<Vec<char>>)
    ensures
        views(r@) == tag_pieces(line@),
{
    let mark: Vec<char> = vec!['t', 'a', 'g', 's', ':'];
    assert(mark@ =~= tags_mark());
    if !chars_start_with(line, &mark) {
        let r: Vec<Vec<char>> = Vec::new();
        assert(views(r@) =~= seq![]);
        return r;
    }
    let rest = sub_chars(line, 5, line.len());
    assert(line@.subrange(5, line.len() as int) == line@.skip(5));
    split_chars(&rest, ',')
}

/// The reference that `line` defines.
fn line_definition(line: &Vec<char>) -> (r: Option<(Vec<char>, Vec<char>)>)
    ensures
        r is Some <==> definition_of(line@) is Some,
        r matches Some(d) ==> definition_of(line@) == Some((d.0@, d.1@)),
{
    if line.len() == 0 || line[0] != '[' {
        return None;
    }
    let close = find_char(line, ']', 1);
    if close >= line.len() || close + 1 >= line.len() || line[close + 1] != ':' {
        return None;
    }
    let label = trimmed_chars(line, 1, close);
    let target = trimmed_chars(line, close + 2, line.len());
    assert(line@.subrange(close + 2, line.len() as int) == line@.skip(close + 2));
    if label.len() == 0 || target.len() == 0 {
        None
    } else {
        Some((label, target))
    }
}

/// The target that `label` is defined with.
fn resolve_label(defs: &Vec<(Vec<char>, Vec<char>)>, label: &Vec<char>) -> (r: Option<usize>)
    ensures
        r is Some <==> resolve(definition_views(defs@), label@) is Some,
        r matches Some(k) ==> k < defs.len() && resolve(definition_views(defs@), label@) == Some(
            defs@[k as int].1@,
        ),
{
    let ghost dv = definition_views(defs@);
    let mut k: usize = 0;
    assert(dv.skip(0) == dv);
    while k < defs.len()
        invariant
            k <= defs.len(),
            dv == definition_views(defs@),
            resolve(dv, label@) == resolve(dv.skip(k as int), label@),
        decreases defs.len() - k,
    {
        proof {
            assert(dv.skip(k as int)[0] == dv[k as int]);
            assert(dv[k as int] == (defs@[k as int].0@, defs@[k as int].1@));
            assert(dv.skip(k as int).drop_first() == dv.skip(k + 1));
        }
        if eq_folded(&defs[k].0, label) {
            return Some(k);
        }
        k += 1;
    }
    None
}

/// The link to `target` that was attached to `line[from..to]`.
fn make_link(target: String, line: &Vec<char>, from: usize, to: usize) -> (l: Link)
    requires
        from <= to <= line.len(),
    ensures
        l@ == link_to(target@, line@.subrange(from as int, to as int)),
{
    let (a, b) = trim_bounds(line, from, to);
    let context = if a < b {
        Some(string_of(line, a, b))
    } else {
        None
    };
    Link { target, context }
}

/// Appends the links of `line` from position 0 on to `out`.
fn scan_links(line: &Vec<char>, defs: &Vec<(Vec<char>, Vec<char>)>, out: &mut Vec<Link>)
    ensures
        link_views(final(out)@) == link_views(old(out)@) + links_from(
            line@,
            definition_views(defs@),
            0,
        ),
{
    let ghost dv = definition_views(defs@);
    let ghost start = link_views(out@);
    let ghost total = start + links_from(line@, dv, 0);
    let n = line.len();
    let mut i: usize = 0;
    while i < n
        invariant
            i <= n == line.len(),
            dv == definition_views(defs@),
            link_views(out@) + links_from(line@, dv, i as int) == total,
        decreases n - i,
    {
        if line[i] != '[' {
            i += 1;
        } else {
            let ghost here = link_at(line@, dv, i as int);
            let ghost before = link_views(out@);
            let close = find_char(line, ']', i + 1);
            if find_char(line, '[', i + 1) < close {
                proof {
                    assert(here == (None::<LinkView>, i + 1));
                    assert(Seq::<LinkView>::empty() + links_from(line@, dv, i + 1) =~= links_from(
                        line@,
                        dv,
                        i + 1,
                    ));
                }
                i += 1;
            } else if close < n && close + 1 < n && line[close + 1] == '(' {
                let end = find_char(line, ')', close + 2);
                if end >= n {
                    i += 1;
                } else {
                    let (a, b) = trim_bounds(line, close + 2, end);
                    if a < b {
                        let link = make_link(string_of(line, a, b), line, i + 1, close);
                        let ghost lv = link@;
                        out.push(link);
                        proof {
                            assert(here == (Some(lv), end + 1));
                            assert(link_views(out@) =~= before.push(lv));
                            assert(before.push(lv) + links_from(line@, dv, end + 1) =~= before + (
                            seq![lv] + links_from(line@, dv, end + 1)));
                        }
                    } else {
                        proof {
                            assert(here == (None::<LinkView>, end + 1));
                            assert(Seq::<LinkView>::empty() + links_from(line@, dv, end + 1)
                                =~= links_from(line@, dv, end + 1));
                        }
                    }
                    i = end + 1;
                }
            } else if close < n && close + 1 < n && line[close + 1] == '[' {
                let end = find_char(line, ']', close + 2);
                if end >= n {
                    i += 1;
                } else {
                    let given = trimmed_chars(line, close + 2, end);
                    let label = if given.len() > 0 {
                        given
                    } else {
                        trimmed_chars(line, i + 1, close)
                    };
                    match resolve_label(defs, &label) {
                        Some(k) => {
                            let target = &defs[k].1;
                            let link = make_link(
                                string_of(target, 0, target.len()),
                                line,
                                i + 1,
                                close,
                            );
                            let ghost lv = link@;
                            out.push(link);
                            proof {
                                assert(target@.subrange(0, target.len() as int) == target@);
                                assert(here == (Some(lv), end + 1));
                                assert(link_views(out@) =~= before.push(lv));
                                assert(before.push(lv) + links_from(line@, dv, end + 1) =~= before
                                    + (seq![lv] + links_from(line@, dv, end + 1)));
                            }
                        },
                        None => {
                            proof {
                                assert(here == (None::<LinkView>, end + 1));
                                assert(Seq::<LinkView>::empty() + links_from(line@, dv, end + 1)
                                    =~= links_from(line@, dv, end + 1));
                            }
                        },
                    }
                    i = end + 1;
                }
            } else {
                proof {
                    assert(here == (None::<LinkView>, i + 1));
                    assert(Seq::<LinkView>::empty() + links_from(line@, dv, i + 1) =~= links_from(
                        line@,
                        dv,
                        i + 1,
                    ));
                }
                i += 1;
            }
        }
    }
    assert(link_views(out@) + Seq::<LinkView>::empty() =~= link_views(out@));
}

/// Extracts the finding of a markdown text. `fallback_title` is the title
/// of a text without a heading.
pub fn extract_text(text: &str, fallback_title: &str) -> (f: Finding)
    ensures
        f@ == finding_of(text@, fallback_title@),
{
    let chars = chars_of(text);
    let ls = split_chars(&chars, '\n');
    let ghost lv = lines(text@);
    let mut title: Option<Vec<char>> = None;
    let mut tags: Vec<String> = Vec::new();
    let mut tag_chars: Vec<Vec<char>> = Vec::new();
    let mut defs: Vec<(Vec<char>, Vec<char>)> = Vec::new();
    let mut defines: Vec<bool> = Vec::new();
    let mut i: usize = 0;
    proof {
        assert(lv.skip(0) == lv);
        assert(lv.take(0) =~= seq![]);
        assert(views(tag_chars@) =~= string_views(tags@));
        assert(string_views(tags@) =~= seq![]);
        assert(definition_views(defs@) =~= seq![]);
    }
    while i < ls.len()
        invariant
            i <= ls.len(),
            views(ls@) == lv,
            match title {
                Some(t) => title_in(lv) == Some(t@),
                None => title_in(lv) == title_in(lv.skip(i as int)),
            },
            views(tag_chars@) == string_views(tags@),
            string_views(tags@) == declared_in(lv.take(i as int)),
            definition_views(defs@) == definitions_in(lv.take(i as int)),
            defines.len() == i,
            forall|k: int| 0 <= k < i ==> defines@[k] == (definition_of(#[trigger] lv[k]) is Some),
        decreases ls.len() - i,
    {
        let line = &ls[i];
        proof {
            assert(lv[i as int] == line@);
            assert(lv.skip(i as int)[0] == line@);
            assert(lv.skip(i as int).drop_first() == lv.skip(i + 1));
            assert(lv.take(i + 1).drop_last() == lv.take(i as int));
            assert(lv.take(i + 1).last() == line@);
        }
        if title.is_none() {
            title = line_heading(line);
        }
        let pieces = line_tag_pieces(line);
        merge_pieces(&mut tags, &mut tag_chars, &pieces);
        match line_definition(line) {
            Some(d) => {
                let ghost before = defs@;
                let ghost dview = (d.0@, d.1@);
                defs.push(d);
                defines.push(true);
                assert(definition_views(defs@) =~= definition_views(before).push(dview));
            },
            None => {
                defines.push(false);
            },
        }
        i += 1;
    }
    let ghost dv = definition_views(defs@);
    let mut links: Vec<Link> = Vec::new();
    let mut j: usize = 0;
    proof {
        assert(lv.take(ls.len() as int) == lv);
        assert(link_views(links@) =~= seq![]);
    }
    while j < ls.len()
        invariant
            j <= ls.len(),
            views(ls@) == lv,
            dv == definition_views(defs@),
            defines.len() == ls.len(),
            forall|k: int|
                0 <= k < ls.len() ==> defines@[k] == (definition_of(#[trigger] lv[k]) is Some),
            link_views(links@) == links_in(lv.take(j as int), dv),
        decreases ls.len() - j,
    {
        let line = &ls[j];
        proof {
            assert(lv[j as int] == line@);
            assert(lv.take(j + 1).drop_last() == lv.take(j as int));
            assert(lv.take(j + 1).last() == line@);
        }
        if !defines[j] {
            scan_links(line, &defs, &mut links);
        } else {
            assert(link_views(links@) + Seq::<LinkView>::empty() =~= link_views(links@));
        }
        j += 1;
    }
    assert(lv.take(ls.len() as int) == lv);
    let title = match title {
        Some(t) => {
            assert(t@.subrange(0, t.len() as int) == t@);
            string_of(&t, 0, t.len())
        },
        None => {
            assert(lv.skip(ls.len() as int) =~= seq![]);
            fallback_title.to_owned()
        },
    };
    Finding { title, links, tags }
}

} // verus!
