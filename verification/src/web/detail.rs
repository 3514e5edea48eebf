//! The disk section of an agent's page.

use crate::text::concat3;
use crate::text::decimal;
use crate::text::format_usize;
use crate::text::opt_text;
use crate::text::text_eq;
use crate::web::templates::escaped;
use crate::web::templates::html_escape;
use vstd::prelude::*;

verus! {

/// How many directories the page lists.
pub const BREAKDOWN_LIMIT: usize = 5;

/// A directory with its size in words.
#[derive(Debug, Clone)]
pub struct BreakdownEntry {
    pub name: String,
    pub size: String,
}

/// When the sizes were taken, as a timestamp and in words.
#[derive(Debug, Clone)]
pub struct UpdatedAt {
    pub full: String,
    pub relative: String,
}

/// One row of the list.
pub open spec fn row(e: BreakdownEntry) -> Seq<char> {
    "    <li class=\"agent-disk__row\"><span class=\"agent-disk__name\">"@ + escaped(e.name@)
        + "</span> <span class=\"agent-disk__bytes\">"@ + e.size@ + "</span></li>\n"@
}

pub open spec fn rows(entries: Seq<BreakdownEntry>) -> Seq<char>
    decreases entries.len(),
{
    if entries.len() == 0 {
        Seq::empty()
    } else {
        rows(entries.drop_last()) + row(entries.last())
    }
}

/// The list of directories.
pub open spec fn breakdown_html(entries: Seq<BreakdownEntry>) -> Seq<char> {
    if entries.len() == 0 {
        "<p class=\"agent-disk__empty\">No subdirectory data available.</p>"@
    } else {
        "<ol class=\"agent-disk__breakdown\">\n"@ + rows(entries) + "</ol>"@
    }
}

/// A text, or a dash where there is none.
pub open spec fn or_dash(t: Option<Seq<char>>) -> Seq<char> {
    match t {
        Some(s) => s,
        None => "—"@,
    }
}

/// The disk section. What is unknown is a dash.
pub open spec fn disk_html(
    home: Option<Seq<char>>,
    total: Option<Seq<char>>,
    updated: Option<UpdatedAt>,
    entries: Seq<BreakdownEntry>,
) -> Seq<char> {
    let home_label = match home {
        Some(h) => escaped(h),
        None => "—"@,
    };
    let full = match updated {
        Some(u) => escaped(u.full@),
        None => Seq::empty(),
    };
    let short = match updated {
        Some(u) => escaped(u.relative@),
        None => escaped("—"@),
    };
    let shown = if entries.len() == 0 {
        1
    } else {
        entries.len()
    };
    "<section class=\"agent-disk\">\n  <dl class=\"agent-disk__summary\">\n    <dt>home dir</dt><dd><code>"@
        + home_label + "</code></dd>\n    <dt>total</dt><dd>"@ + or_dash(total)
        + "</dd>\n    <dt>updated</dt><dd title=\""@ + full + "\">"@ + short
        + "</dd>\n  </dl>\n  <h3>top "@ + decimal(shown) + " subdirectories</h3>\n  "@
        + breakdown_html(entries) + "\n</section>"@
}

pub open spec fn opt_str(t: Option<&str>) -> Option<Seq<char>> {
    match t {
        Some(s) => Some(s@),
        None => None,
    }
}

fn breakdown_section(entries: &Vec<BreakdownEntry>) -> (r: String)
    ensures
        r@ == breakdown_html(entries@),
{
    if entries.len() == 0 {
        return "<p class=\"agent-disk__empty\">No subdirectory data available.</p>".to_owned();
    }
    let mut items = String::new();
    let mut i: usize = 0;
    assert(entries@.take(0) =~= Seq::<BreakdownEntry>::empty());
    while i < entries.len()
        invariant
            i <= entries@.len(),
            items@ == rows(entries@.take(i as int)),
        decreases entries@.len() - i,
    {
        let e = &entries[i];
        let ghost before = items@;
        proof {
            assert(entries@.take(i + 1).drop_last() =~= entries@.take(i as int));
        }
        let name = html_escape(e.name.as_str());
        items.append("    <li class=\"agent-disk__row\"><span class=\"agent-disk__name\">");
        items.append(name.as_str());
        items.append("</span> <span class=\"agent-disk__bytes\">");
        items.append(e.size.as_str());
        items.append("</span></li>\n");
        assert(items@ =~= before + row(*e));
        i += 1;
    }
    assert(entries@.take(entries@.len() as int) =~= entries@);
    concat3("<ol class=\"agent-disk__breakdown\">\n", items.as_str(), "</ol>")
}

/// The disk section of an agent: its home directory, the size of it in words, when it
/// was taken, and its largest directories.
pub fn agent_disk_detail_html(
    home_dir: Option<&str>,
    total: Option<&str>,
    updated_at: &Option<UpdatedAt>,
    breakdown: &Vec<BreakdownEntry>,
) -> (r: String)
    ensures
        r@ == disk_html(opt_str(home_dir), opt_str(total), *updated_at, breakdown@),
{
    let home_label = match home_dir {
        Some(h) => html_escape(h),
        None => "—".to_owned(),
    };
    let total_label = match total {
        Some(t) => t,
        None => "—",
    };
    let full = match updated_at {
        Some(u) => html_escape(u.full.as_str()),
        None => String::new(),
    };
    let short = match updated_at {
        Some(u) => html_escape(u.relative.as_str()),
        None => html_escape("—"),
    };
    let shown: usize = if breakdown.len() == 0 {
        1
    } else {
        breakdown.len()
    };
    let section = breakdown_section(breakdown);
    let count = format_usize(shown);
    let mut out = concat3(
        "<section class=\"agent-disk\">\n  <dl class=\"agent-disk__summary\">\n    <dt>home dir</dt><dd><code>",
        home_label.as_str(),
        "</code></dd>\n    <dt>total</dt><dd>",
    );
    out.append(total_label);
    out.append("</dd>\n    <dt>updated</dt><dd title=\"");
    out.append(full.as_str());
    out.append("\">");
    out.append(short.as_str());
    out.append("</dd>\n  </dl>\n  <h3>top ");
    out.append(count.as_str());
    out.append(" subdirectories</h3>\n  ");
    out.append(section.as_str());
    out.append("\n</section>");
    out
}

/// The home directory of the first agent of that name.
pub open spec fn home_in(homes: Seq<(String, String)>, name: Seq<char>) -> Option<Seq<char>>
    decreases homes.len(),
{
    if homes.len() == 0 {
        None
    } else if homes[0].0@ == name {
        Some(homes[0].1@)
    } else {
        home_in(homes.drop_first(), name)
    }
}

/// The home directory of the agent; `None` where there is no agent of that name.
pub fn home_of(homes: &Vec<(String, String)>, name: &str) -> (r: Option<String>)
    ensures
        opt_text(r) == home_in(homes@, name@),
{
    let mut i: usize = 0;
    assert(homes@.skip(0) =~= homes@);
    while i < homes.len()
        invariant
            i <= homes@.len(),
            home_in(homes@, name@) == home_in(homes@.skip(i as int), name@),
        decreases homes@.len() - i,
    {
        if text_eq(homes[i].0.as_str(), name) {
            return Some(homes[i].1.clone());
        }
        assert(homes@.skip(i as int).drop_first() =~= homes@.skip(i + 1));
        i += 1;
    }
    None
}

/// Whether the text stands somewhere in the page.
pub open spec fn shows(page: Seq<char>, text: Seq<char>) -> bool {
    exists|before: Seq<char>, after: Seq<char>| page == #[trigger] (before + text + after)
}

/// Each directory has its row, in order, with its name and its size.
pub proof fn law_row_per_directory(a: Seq<BreakdownEntry>, e: BreakdownEntry, b: Seq<BreakdownEntry>)
    ensures
        rows(a + seq![e] + b) == rows(a)
            + "    <li class=\"agent-disk__row\"><span class=\"agent-disk__name\">"@ + escaped(
            e.name@,
        ) + "</span> <span class=\"agent-disk__bytes\">"@ + e.size@ + "</span></li>\n"@ + rows(b),
    decreases b.len(),
{
    let all = a + seq![e] + b;
    if b.len() == 0 {
        assert(all =~= a.push(e));
        assert(all.drop_last() =~= a);
        assert(rows(all) =~= rows(a)
            + "    <li class=\"agent-disk__row\"><span class=\"agent-disk__name\">"@ + escaped(
            e.name@,
        ) + "</span> <span class=\"agent-disk__bytes\">"@ + e.size@ + "</span></li>\n"@ + rows(b));
    } else {
        law_row_per_directory(a, e, b.drop_last());
        assert(all.drop_last() =~= a + seq![e] + b.drop_last());
        assert(all.last() == b.last());
        assert(rows(all) =~= rows(a)
            + "    <li class=\"agent-disk__row\"><span class=\"agent-disk__name\">"@ + escaped(
            e.name@,
        ) + "</span> <span class=\"agent-disk__bytes\">"@ + e.size@ + "</span></li>\n"@ + rows(b));
    }
}

/// The section shows the home directory, the size and the time it was given, each next to
/// its label, and a dash for what is unknown. It counts the directories that it lists.
pub proof fn law_section_shows_what_it_was_given(
    home_dir: Option<&str>,
    total: Option<&str>,
    updated_at: &Option<UpdatedAt>,
    breakdown: &Vec<BreakdownEntry>,
    r: String,
)
    requires
        call_ensures(agent_disk_detail_html, (home_dir, total, updated_at, breakdown), r),
    ensures
        home_dir matches Some(h) ==> shows(
            r@,
            "<dt>home dir</dt><dd><code>"@ + escaped(h@) + "</code></dd>"@,
        ),
        home_dir is None ==> shows(r@, "<dt>home dir</dt><dd><code>"@ + "—"@ + "</code></dd>"@),
        total matches Some(t) ==> shows(r@, "<dt>total</dt><dd>"@ + t@ + "</dd>"@),
        total is None ==> shows(r@, "<dt>total</dt><dd>"@ + "—"@ + "</dd>"@),
        updated_at matches Some(u) ==> shows(
            r@,
            "<dt>updated</dt><dd title=\""@ + escaped(u.full@) + "\">"@ + escaped(u.relative@)
                + "</dd>"@,
        ),
        breakdown@.len() > 0 ==> shows(
            r@,
            "top "@ + decimal(breakdown@.len()) + " subdirectories"@,
        ),
        breakdown@.len() > 0 ==> shows(r@, rows(breakdown@)),
        breakdown@.len() == 0 ==> shows(r@, "No subdirectory data available."@),
{
    let home = match home_dir {
        Some(h) => escaped(h@),
        None => "—"@,
    };
    let size = match total {
        Some(t) => t@,
        None => "—"@,
    };
    let full = match *updated_at {
        Some(u) => escaped(u.full@),
        None => Seq::empty(),
    };
    let short = match *updated_at {
        Some(u) => escaped(u.relative@),
        None => escaped("—"@),
    };
    let shown: nat = if breakdown@.len() == 0 {
        1
    } else {
        breakdown@.len()
    };
    let list = breakdown_html(breakdown@);
    lemma_section_parts(home, size, full, short, decimal(shown), list);
    lemma_list_shown(r@, breakdown@);
}

/// A part of a part of the page stands in the page.
proof fn lemma_shows_part(page: Seq<char>, outer: Seq<char>, inner: Seq<char>)
    requires
        shows(page, outer),
        shows(outer, inner),
    ensures
        shows(page, inner),
{
    let (a, d) = choose|a: Seq<char>, d: Seq<char>| page == #[trigger] (a + outer + d);
    let (b, c) = choose|b: Seq<char>, c: Seq<char>| outer == #[trigger] (b + inner + c);
    assert(page =~= (a + b) + inner + (c + d));
}

proof fn lemma_list_shown(page: Seq<char>, entries: Seq<BreakdownEntry>)
    requires
        shows(page, breakdown_html(entries)),
    ensures
        entries.len() > 0 ==> shows(page, rows(entries)),
        entries.len() == 0 ==> shows(page, "No subdirectory data available."@),
{
    let list = breakdown_html(entries);
    if entries.len() > 0 {
        assert(list =~= "<ol class=\"agent-disk__breakdown\">\n"@ + rows(entries) + "</ol>"@);
        lemma_shows_part(page, list, rows(entries));
    } else {
        reveal_strlit("<p class=\"agent-disk__empty\">No subdirectory data available.</p>");
        reveal_strlit("<p class=\"agent-disk__empty\">");
        reveal_strlit("No subdirectory data available.");
        reveal_strlit("</p>");
        assert(list =~= "<p class=\"agent-disk__empty\">"@ + "No subdirectory data available."@
            + "</p>"@);
        lemma_shows_part(page, list, "No subdirectory data available."@);
    }
}

/// Where a text is cut in two, its ends are the text.
proof fn lemma_labels()
    ensures
        "<section class=\"agent-disk\">\n  <dl class=\"agent-disk__summary\">\n    <dt>home dir</dt><dd><code>"@
            == "<section class=\"agent-disk\">\n  <dl class=\"agent-disk__summary\">\n    "@
            + "<dt>home dir</dt><dd><code>"@,
        "</code></dd>\n    <dt>total</dt><dd>"@ == "</code></dd>"@ + "\n    "@
            + "<dt>total</dt><dd>"@,
        "</dd>\n    <dt>updated</dt><dd title=\""@ == "</dd>"@ + "\n    "@
            + "<dt>updated</dt><dd title=\""@,
        "</dd>\n  </dl>\n  <h3>top "@ == "</dd>"@ + "\n  </dl>\n  <h3>"@ + "top "@,
        " subdirectories</h3>\n  "@ == " subdirectories"@ + "</h3>\n  "@,
{
    reveal_strlit(
        "<section class=\"agent-disk\">\n  <dl class=\"agent-disk__summary\">\n    <dt>home dir</dt><dd><code>",
    );
    reveal_strlit("<section class=\"agent-disk\">\n  <dl class=\"agent-disk__summary\">\n    ");
    reveal_strlit("<dt>home dir</dt><dd><code>");
    reveal_strlit("</code></dd>\n    <dt>total</dt><dd>");
    reveal_strlit("</code></dd>");
    reveal_strlit("\n    ");
    reveal_strlit("<dt>total</dt><dd>");
    reveal_strlit("</dd>\n    <dt>updated</dt><dd title=\"");
    reveal_strlit("</dd>");
    reveal_strlit("<dt>updated</dt><dd title=\"");
    reveal_strlit("</dd>\n  </dl>\n  <h3>top ");
    reveal_strlit("\n  </dl>\n  <h3>");
    reveal_strlit("top ");
    reveal_strlit(" subdirectories</h3>\n  ");
    reveal_strlit(" subdirectories");
    reveal_strlit("</h3>\n  ");
}

/// What stands in the first of two joined texts, or in the second, stands in both joined.
proof fn lemma_shows_joined(a: Seq<char>, b: Seq<char>, text: Seq<char>)
    ensures
        shows(a, text) || shows(b, text) ==> shows(a + b, text),
        shows(text, text),
{
    let none = Seq::<char>::empty();
    assert(text =~= none + text + none);
    if shows(a, text) {
        let (x, y) = choose|x: Seq<char>, y: Seq<char>| a == #[trigger] (x + text + y);
        assert(a + b =~= x + text + (y + b));
    } else if shows(b, text) {
        let (x, y) = choose|x: Seq<char>, y: Seq<char>| b == #[trigger] (x + text + y);
        assert(a + b =~= (a + x) + text + y);
    }
}

proof fn lemma_section_parts(
    home: Seq<char>,
    size: Seq<char>,
    full: Seq<char>,
    short: Seq<char>,
    count: Seq<char>,
    list: Seq<char>,
)
    ensures
        ({
            let page =
                "<section class=\"agent-disk\">\n  <dl class=\"agent-disk__summary\">\n    <dt>home dir</dt><dd><code>"@
                + home + "</code></dd>\n    <dt>total</dt><dd>"@ + size
                + "</dd>\n    <dt>updated</dt><dd title=\""@ + full + "\">"@ + short
                + "</dd>\n  </dl>\n  <h3>top "@ + count + " subdirectories</h3>\n  "@ + list
                + "\n</section>"@;
            &&& shows(page, "<dt>home dir</dt><dd><code>"@ + home + "</code></dd>"@)
            &&& shows(page, "<dt>total</dt><dd>"@ + size + "</dd>"@)
            &&& shows(
                page,
                "<dt>updated</dt><dd title=\""@ + full + "\">"@ + short + "</dd>"@,
            )
            &&& shows(page, "top "@ + count + " subdirectories"@)
            &&& shows(page, list)
        }),
{
    lemma_labels();
    let open = "<section class=\"agent-disk\">\n  <dl class=\"agent-disk__summary\">\n    "@;
    let gap = "\n    "@;
    let p1 = "<dt>home dir</dt><dd><code>"@ + home + "</code></dd>"@;
    let p2 = "<dt>total</dt><dd>"@ + size + "</dd>"@;
    let p3 = "<dt>updated</dt><dd title=\""@ + full + "\">"@ + short + "</dd>"@;
    let p4 = "top "@ + count + " subdirectories"@;
    let s1 = open + p1;
    let s2 = s1 + gap;
    let s3 = s2 + p2;
    let s4 = s3 + gap;
    let s5 = s4 + p3;
    let s6 = s5 + "\n  </dl>\n  <h3>"@;
    let s7 = s6 + p4;
    let s8 = s7 + "</h3>\n  "@;
    let s9 = s8 + list;
    let page = s9 + "\n</section>"@;
    let a =
        "<section class=\"agent-disk\">\n  <dl class=\"agent-disk__summary\">\n    <dt>home dir</dt><dd><code>"@
        + home + "</code></dd>\n    <dt>total</dt><dd>"@ + size
        + "</dd>\n    <dt>updated</dt><dd title=\""@;
    assert(a =~= s4 + "<dt>updated</dt><dd title=\""@);
    let b = a + full + "\">"@ + short + "</dd>\n  </dl>\n  <h3>top "@;
    assert(b =~= s6 + "top "@);
    assert(b + count + " subdirectories</h3>\n  "@ =~= s8);
    lemma_shows_joined(open, p1, p1);
    lemma_shows_joined(p1, p1, p1);
    lemma_carried(s1, gap, p2, gap, p1);
    lemma_shows_joined(p2, p2, p2);
    lemma_shows_joined(p3, p3, p3);
    lemma_shows_joined(p4, p4, p4);
    lemma_shows_joined(list, list, list);
    lemma_shows_joined(s2, p2, p2);
    lemma_shows_joined(s3, gap, p2);
    lemma_carried(s4, p3, "\n  </dl>\n  <h3>"@, p4, p1);
    lemma_carried(s4, p3, "\n  </dl>\n  <h3>"@, p4, p2);
    lemma_shows_joined(s4, p3, p3);
    lemma_shows_joined(s5, "\n  </dl>\n  <h3>"@, p3);
    lemma_shows_joined(s6, p4, p3);
    lemma_shows_joined(s6, p4, p4);
    lemma_tail(s7, list, p1);
    lemma_tail(s7, list, p2);
    lemma_tail(s7, list, p3);
    lemma_tail(s7, list, p4);
    lemma_shows_joined(s8, list, list);
    lemma_shows_joined(s9, "\n</section>"@, list);
}

proof fn lemma_carried(
    s: Seq<char>,
    a: Seq<char>,
    b: Seq<char>,
    c: Seq<char>,
    text: Seq<char>,
)
    requires
        shows(s, text),
    ensures
        shows(s + a + b + c, text),
{
    lemma_shows_joined(s, a, text);
    lemma_shows_joined(s + a, b, text);
    lemma_shows_joined(s + a + b, c, text);
}

proof fn lemma_tail(s: Seq<char>, list: Seq<char>, text: Seq<char>)
    requires
        shows(s, text),
    ensures
        shows(s + "</h3>\n  "@ + list + "\n</section>"@, text),
{
    lemma_carried(s, "</h3>\n  "@, list, "\n</section>"@, text);
}

/// The home directory is that of the first agent of the name; without one there is none.
pub proof fn law_home_of_the_first(homes: &Vec<(String, String)>, name: &str, r: Option<String>)
    requires
        call_ensures(home_of, (homes, name), r),
    ensures
        r is None <==> forall|i: int|
            0 <= i < homes@.len() ==> (#[trigger] homes@[i]).0@ != name@,
        r matches Some(h) ==> exists|i: int|
            0 <= i < homes@.len() && (#[trigger] homes@[i]).0@ == name@ && homes@[i].1@ == h@ && (
            forall|j: int| 0 <= j < i ==> (#[trigger] homes@[j]).0@ != name@),
{
    lemma_home_in(homes@, name@);
    if let Some(h) = r {
        assert(home_in(homes@, name@) == Some(h@));
    }
}

proof fn lemma_home_in(homes: Seq<(String, String)>, name: Seq<char>)
    ensures
        home_in(homes, name) is None <==> forall|i: int|
            0 <= i < homes.len() ==> (#[trigger] homes[i]).0@ != name,
        home_in(homes, name) matches Some(h) ==> exists|i: int|
            0 <= i < homes.len() && (#[trigger] homes[i]).0@ == name && homes[i].1@ == h && (forall|
                j: int,
            |
                0 <= j < i ==> (#[trigger] homes[j]).0@ != name),
    decreases homes.len(),
{
    if homes.len() > 0 && homes[0].0@ != name {
        let rest = homes.drop_first();
        lemma_home_in(rest, name);
        assert forall|i: int| 0 < i < homes.len() implies #[trigger] homes[i] == rest[i - 1] by {}
        if home_in(rest, name) is None {
            assert forall|i: int| 0 <= i < homes.len() implies (#[trigger] homes[i]).0@ != name by {
                if i > 0 {
                    assert(rest[i - 1].0@ != name);
                }
            }
        } else {
            let h = home_in(rest, name)->0;
            let i = choose|i: int|
                0 <= i < rest.len() && (#[trigger] rest[i]).0@ == name && rest[i].1@ == h && (
                forall|j: int| 0 <= j < i ==> (#[trigger] rest[j]).0@ != name);
            assert(homes[i + 1].0@ == name && homes[i + 1].1@ == h);
            assert forall|j: int| 0 <= j < i + 1 implies (#[trigger] homes[j]).0@ != name by {
                if j > 0 {
                    assert(rest[j - 1].0@ != name);
                }
            }
        }
    } else if homes.len() > 0 {
        assert(homes[0].0@ == name);
    }
}

} // verus!
