//! The text of the report: headers, fix lines, detail lines and the summary.

use vstd::prelude::*;
use vstd::string::*;
use crate::models::{Severity, FixAvailable, OutdatedEntry, Vulnerability, Via, VulnCount, AuditReport, count_of, targets};
use crate::name_map::{NameMap, lookup};
use crate::chains::Chain;
use crate::style::{Paint, Emphasis, Styled, painted, render_with_colored, esc, strip_ansi, strip_from, ends_in_escape, lemma_strip_concat, lemma_strip_plain, lemma_strip_painted};
use crate::text::ascii_upper_char;
use crate::text::{ascii_upper, seq_join, views, join, decimal, push_decimal, has_substring, lemma_join_holds, lemma_substring_within};

verus! {

/// The severity's name in capitals.
pub fn upper_label(severity: Severity) -> (r: &'static str)
    ensures
        r@ == ascii_upper(severity.label()),
{
    match severity {
        Severity::Info => {
            proof {
                reveal_strlit("info");
                reveal_strlit("INFO");
            }
            assert("INFO"@ =~= ascii_upper("info"@));
            "INFO"
        },
        Severity::Low => {
            proof {
                reveal_strlit("low");
                reveal_strlit("LOW");
            }
            assert("LOW"@ =~= ascii_upper("low"@));
            "LOW"
        },
        Severity::Moderate => {
            proof {
                reveal_strlit("moderate");
                reveal_strlit("MODERATE");
            }
            assert("MODERATE"@ =~= ascii_upper("moderate"@));
            "MODERATE"
        },
        Severity::High => {
            proof {
                reveal_strlit("high");
                reveal_strlit("HIGH");
            }
            assert("HIGH"@ =~= ascii_upper("high"@));
            "HIGH"
        },
        Severity::Critical => {
            proof {
                reveal_strlit("critical");
                reveal_strlit("CRITICAL");
            }
            assert("CRITICAL"@ =~= ascii_upper("critical"@));
            "CRITICAL"
        },
    }
}

/// The background on which a severity is shown.
pub open spec fn severity_background(severity: Severity) -> Paint {
    match severity {
        Severity::Critical => Paint::Red,
        Severity::High => Paint::TrueColor { r: 255, g: 165, b: 0 },
        Severity::Moderate => Paint::Yellow,
        Severity::Low => Paint::Green,
        Severity::Info => Paint::Cyan,
    }
}

/// The severity badge: its name in capitals, black on the severity's color.
pub fn format_severity(severity: Severity) -> (r: Styled)
    ensures
        r.text@ == ascii_upper(severity.label()),
        r.fg == Some(Paint::Black),
        r.bg == Some(severity_background(severity)),
        r.emphasis == Emphasis::Plain,
{
    let text = String::from_str(upper_label(severity));
    let bg = match severity {
        Severity::Critical => Paint::Red,
        Severity::High => Paint::TrueColor { r: 255, g: 165, b: 0 },
        Severity::Moderate => Paint::Yellow,
        Severity::Low => Paint::Green,
        Severity::Info => Paint::Cyan,
    };
    Styled { text, fg: Some(Paint::Black), bg: Some(bg), emphasis: Emphasis::Plain }
}

/// The command, or the absence of one, that fixes a vulnerability.
pub open spec fn fix_text(fix: FixAvailable) -> Seq<char> {
    match fix {
        FixAvailable::Bool(true) => "npm audit fix"@,
        FixAvailable::Bool(false) => "no fix available"@,
        FixAvailable::Fix(f) => "npm install "@ + f.name@ + "@"@ + f.version@ + " (major bump)"@,
    }
}

/// The command, or the absence of one, that fixes a vulnerability.
pub fn format_fix(fix: &FixAvailable) -> (r: String)
    ensures
        r@ == fix_text(*fix),
{
    match fix {
        FixAvailable::Bool(true) => String::from_str("npm audit fix"),
        FixAvailable::Bool(false) => String::from_str("no fix available"),
        FixAvailable::Fix(f) => {
            let mut r = String::from_str("npm install ");
            r.append(f.name.as_str());
            r.append("@");
            r.append(f.version.as_str());
            r.append(" (major bump)");
            r
        },
    }
}

/// The installed and the latest version of an outdated package.
pub open spec fn outdated_text(entry: OutdatedEntry) -> Seq<char> {
    "installed: "@ + (match entry.current {
        Some(c) => c@,
        None => "unknown"@,
    }) + ", latest: "@ + entry.latest@
}

/// The installed and the latest version of an outdated package.
pub fn format_outdated(outdated: &OutdatedEntry) -> (r: String)
    ensures
        r@ == outdated_text(*outdated),
{
    let mut r = String::from_str("installed: ");
    match &outdated.current {
        Some(c) => r.append(c.as_str()),
        None => r.append("unknown"),
    }
    r.append(", latest: ");
    r.append(outdated.latest.as_str());
    r
}

/// The arrow between the names of a dependency chain.
pub open spec fn chain_separator() -> Seq<char> {
    " → "@
}

/// A dependency chain, its names joined by arrows.
pub fn format_chain(chain: &[String]) -> (r: String)
    ensures
        r@ == seq_join(views(chain@), chain_separator()),
{
    join(chain, " → ")
}

/// The layout of a vulnerability's header, given its four rendered parts.
pub open spec fn header_text(severity: Seq<char>, name: Seq<char>, range: Seq<char>, dependency: Seq<char>) -> Seq<char> {
    "["@ + severity + "] "@ + name + " ("@ + range + ") ["@ + dependency + "]"@
}

/// Lays out a vulnerability's header from its four rendered parts.
pub fn header_line(severity: &str, name: &str, range: &str, dependency: &str) -> (r: String)
    ensures
        r@ == header_text(severity@, name@, range@, dependency@),
{
    let mut r = String::from_str("[");
    r.append(severity);
    r.append("] ");
    r.append(name);
    r.append(" (");
    r.append(range);
    r.append(") [");
    r.append(dependency);
    r.append("]");
    r
}

/// A vulnerability's header: `[SEVERITY] name (range) [dependency type]`,
/// each part rendered with its style.
pub fn format_vulnerability_header(vuln: &Vulnerability) -> (r: String)
    ensures
        header_rendering(r@, *vuln),
        !vuln.name@.contains(esc()) && !vuln.range@.contains(esc()) ==> strip_ansi(r@) == plain_header(*vuln),
{
    let sev = render_with_colored(&format_severity(vuln.severity));
    let name = render_with_colored(&Styled { text: vuln.name.clone(), fg: None, bg: None, emphasis: Emphasis::Bold });
    let range = render_with_colored(&Styled { text: vuln.range.clone(), fg: None, bg: None, emphasis: Emphasis::Dimmed });
    let dep = render_with_colored(&Styled { text: String::from_str(vuln.is_direct.as_str()), fg: Some(Paint::Cyan), bg: None, emphasis: Emphasis::Plain });
    let r = header_line(sev.as_str(), name.as_str(), range.as_str(), dep.as_str());
    proof {
        if !vuln.name@.contains(esc()) && !vuln.range@.contains(esc()) {
            lemma_header_stripped(r@, *vuln);
        }
    }
    r
}

/// `out` is a rendering of the header of `vuln`: the header layout around
/// renderings of the severity badge (black on the severity's color), the
/// package name in bold, the range dimmed and the dependency type in cyan.
pub open spec fn header_rendering(out: Seq<char>, vuln: Vulnerability) -> bool {
        exists|sev: Seq<char>, name: Seq<char>, range: Seq<char>, dep: Seq<char>|
            {
                &&& out == header_text(sev, name, range, dep)
                &&& painted(
                    sev,
                    ascii_upper(vuln.severity.label()),
                    Some(Paint::Black),
                    Some(severity_background(vuln.severity)),
                    Emphasis::Plain,
                )
                &&& painted(name, vuln.name@, None, None, Emphasis::Bold)
                &&& painted(range, vuln.range@, None, None, Emphasis::Dimmed)
                &&& painted(dep, vuln.is_direct.label(), Some(Paint::Cyan), None, Emphasis::Plain)
            }
}

/// Red when no fix is available, green otherwise.
pub open spec fn fix_color(fix: FixAvailable) -> Paint {
    match fix {
        FixAvailable::Bool(false) => Paint::Red,
        _ => Paint::Green,
    }
}

/// The text of the fix line, which closes a vulnerability's block.
pub open spec fn fix_line_text(fix: FixAvailable) -> Seq<char> {
    " └─ → "@ + fix_text(fix)
}

/// The fix line, which closes a vulnerability's block: ` └─ → ` and the
/// fix, in bold, red when there is no fix and green otherwise.
pub fn format_fix_line(fix: &FixAvailable) -> (r: Styled)
    ensures
        r.text@ == fix_line_text(*fix),
        r.fg == Some(fix_color(*fix)),
        r.bg is None,
        r.emphasis == Emphasis::Bold,
{
    let mut text = String::from_str(" └─ → ");
    let f = format_fix(fix);
    text.append(f.as_str());
    let fg = match fix {
        FixAvailable::Bool(false) => Paint::Red,
        _ => Paint::Green,
    };
    Styled { text, fg: Some(fg), bg: None, emphasis: Emphasis::Bold }
}

/// The lines that describe where one `via` entry comes from.
pub open spec fn via_line(via: Via) -> Seq<Seq<char>> {
    match via {
        Via::Advisory(a) => seq![" ├─ • "@ + a.title@ + " ("@ + a.range@ + ")"@, " │  └─   "@ + a.url@],
        Via::Reference(r) => seq!["  Via: "@ + r@],
    }
}

/// The lines of all `via` entries, in order.
pub open spec fn via_lines(vias: Seq<Via>) -> Seq<Seq<char>>
    decreases vias.len(),
{
    if vias.len() == 0 {
        Seq::empty()
    } else {
        via_lines(vias.drop_last()) + via_line(vias.last())
    }
}

/// The line on an outdated package, if it is outdated.
pub open spec fn outdated_lines(entry: Option<OutdatedEntry>) -> Seq<Seq<char>> {
    match entry {
        Some(e) => seq!["  Outdated: "@ + outdated_text(e)],
        None => Seq::empty(),
    }
}

/// A chain as shown: its names joined by arrows.
pub open spec fn chain_text(c: Chain) -> Seq<char> {
    seq_join(c, chain_separator())
}

/// The chains of more than one name.
pub open spec fn multi_hop(chains: Seq<Chain>) -> Seq<Chain> {
    chains.filter(|c: Chain| c.len() > 1)
}

/// The lines on the chains that lead to a package: none when no chain has
/// more than one name, one `Path` line for one such chain, and a `Paths`
/// list for several.
pub open spec fn path_lines(chains: Option<Seq<Chain>>) -> Seq<Seq<char>> {
    match chains {
        None => Seq::empty(),
        Some(cs) => {
            let m = multi_hop(cs);
            if m.len() == 0 {
                Seq::empty()
            } else if m.len() == 1 {
                seq!["  Path: "@ + chain_text(m[0])]
            } else {
                seq!["  Paths:"@] + m.map_values(|c: Chain| "    - "@ + chain_text(c))
            }
        },
    }
}

/// The chains stored under `k`, as sequences of names.
pub open spec fn chains_under(chains: &NameMap<Vec<Vec<String>>>, k: Seq<char>) -> Option<Seq<Chain>> {
    match lookup(chains.pairs(), k) {
        Some(v) => Some(v.deep_view()),
        None => None,
    }
}

/// The detail lines of a vulnerability: its `via` entries, whether it is
/// outdated, and the chains that lead to it.
pub open spec fn details_text(vuln: Vulnerability, outdated: Option<OutdatedEntry>, chains: Option<Seq<Chain>>) -> Seq<Seq<char>> {
    via_lines(vuln.via@) + outdated_lines(outdated) + path_lines(chains)
}

/// The chains that references point to, as sequences of names.
pub open spec fn chains_of(s: Seq<&Vec<String>>) -> Seq<Chain> {
    s.map_values(|p: &Vec<String>| p.deep_view())
}

/// Appends to `out` the text `prefix` followed by the chain `c`.
fn push_chain_line(out: &mut Vec<String>, prefix: &str, c: &Vec<String>)
    ensures
        views(final(out)@) == views(old(out)@).push(prefix@ + chain_text(c.deep_view())),
{
    let mut line = String::from_str(prefix);
    let text = format_chain(c.as_slice());
    assert(views(c@) =~= c.deep_view());
    line.append(text.as_str());
    out.push(line);
    assert(views(out@) =~= views(old(out)@).push(prefix@ + chain_text(c.deep_view())));
}

/// Appends to `out` a line of fixed text.
fn push_line(out: &mut Vec<String>, text: &str)
    ensures
        views(final(out)@) == views(old(out)@).push(text@),
{
    out.push(String::from_str(text));
    assert(views(out@) =~= views(old(out)@).push(text@));
}

/// The lines on the chains `paths` that lead to a package.
fn path_details(out: &mut Vec<String>, paths: &Vec<Vec<String>>)
    ensures
        views(final(out)@) == views(old(out)@) + path_lines(Some(paths.deep_view())),
{
    let n = paths.len();
    let ghost all = paths.deep_view();
    let ghost pred = |c: Chain| c.len() > 1;
    let mut multi: Vec<&Vec<String>> = Vec::new();
    for i in 0..n
        invariant
            n == paths@.len(),
            all == paths.deep_view(),
            pred == (|c: Chain| c.len() > 1),
            chains_of(multi@) == all.take(i as int).filter(pred),
    {
        proof {
            reveal_with_fuel(Seq::<_>::filter, 1);
            assert(all.take(i + 1).drop_last() =~= all.take(i as int));
        }
        let p = &paths[i];
        assert(p.deep_view() == all[i as int]);
        if p.len() > 1 {
            let ghost before = multi@;
            multi.push(p);
            assert(chains_of(multi@) =~= chains_of(before).push(p.deep_view()));
        }
    }
    assert(all.take(n as int) =~= all);
    let ghost m = chains_of(multi@);
    let ghost start = views(out@);
    let k = multi.len();
    if k == 1 {
        push_chain_line(out, "  Path: ", multi[0]);
        assert(views(out@) =~= start + path_lines(Some(all)));
    } else if k > 1 {
        push_line(out, "  Paths:");
        let ghost lines = |c: Chain| "    - "@ + chain_text(c);
        for j in 0..k
            invariant
                k == multi@.len(),
                m == chains_of(multi@),
                lines == (|c: Chain| "    - "@ + chain_text(c)),
                views(out@) == start + seq!["  Paths:"@] + m.take(j as int).map_values(lines),
        {
            let ghost before = views(out@);
            push_chain_line(out, "    - ", multi[j]);
            assert(m.take(j + 1).map_values(lines) =~= m.take(j as int).map_values(lines).push(lines(m[j as int])));
        }
        assert(m.take(k as int) =~= m);
        assert(views(out@) =~= start + path_lines(Some(all)));
    } else {
        assert(views(out@) =~= start + path_lines(Some(all)));
    }
}

/// The detail lines of a vulnerability, without styling: where it comes
/// from, whether it is outdated, and the chains that lead to it.
pub fn vulnerability_details(
    vuln: &Vulnerability,
    outdated: &NameMap<OutdatedEntry>,
    chains: &NameMap<Vec<Vec<String>>>,
) -> (r: Vec<String>)
    ensures
        views(r@) == details_text(
            *vuln,
            lookup(outdated.pairs(), vuln.name@),
            chains_under(chains, vuln.name@),
        ),
{
    let mut out: Vec<String> = Vec::new();
    let n = vuln.via.len();
    let ghost vias = vuln.via@;
    assert(views(out@) =~= via_lines(vias.take(0)));
    for i in 0..n
        invariant
            n == vias.len(),
            vias == vuln.via@,
            views(out@) == via_lines(vias.take(i as int)),
    {
        assert(vias.take(i + 1).drop_last() =~= vias.take(i as int));
        let ghost before = views(out@);
        match &vuln.via[i] {
            Via::Advisory(a) => {
                let mut first = String::from_str(" ├─ • ");
                first.append(a.title.as_str());
                first.append(" (");
                first.append(a.range.as_str());
                first.append(")");
                out.push(first);
                let mut second = String::from_str(" │  └─   ");
                second.append(a.url.as_str());
                out.push(second);
            },
            Via::Reference(r) => {
                let mut line = String::from_str("  Via: ");
                line.append(r.as_str());
                out.push(line);
            },
        }
        assert(views(out@) =~= before + via_line(vias[i as int]));
    }
    assert(vias.take(n as int) =~= vias);
    let ghost after_via = views(out@);
    match outdated.get(vuln.name.as_str()) {
        Some(entry) => {
            let mut line = String::from_str("  Outdated: ");
            let text = format_outdated(entry);
            line.append(text.as_str());
            out.push(line);
        },
        None => {},
    }
    assert(views(out@) =~= after_via + outdated_lines(lookup(outdated.pairs(), vuln.name@)));
    match chains.get(vuln.name.as_str()) {
        Some(paths) => path_details(&mut out, paths),
        None => {},
    }
    out
}

/// The lines printed for a vulnerability, before styling: the header, the
/// detail lines, the fix line and an empty line.
pub open spec fn plain_block(vuln: Vulnerability, details: Seq<Seq<char>>) -> Seq<Seq<char>> {
    seq![plain_header(vuln)] + details + seq![fix_line_text(vuln.fix_available), Seq::<char>::empty()]
}

/// The header of `vuln` as the terminal shows it.
pub open spec fn plain_header(vuln: Vulnerability) -> Seq<char> {
    header_text(ascii_upper(vuln.severity.label()), vuln.name@, vuln.range@, vuln.is_direct.label())
}

/// `lines` renders the block of `vuln` with detail lines `details`: the
/// header, the detail lines dimmed, the fix line in bold red or green, and
/// an empty line.
pub open spec fn block_rendering(lines: Seq<Seq<char>>, vuln: Vulnerability, details: Seq<Seq<char>>) -> bool {
    &&& lines.len() == details.len() + 3
    &&& header_rendering(lines[0], vuln)
    &&& forall|i: int| 0 <= i < details.len() ==> painted(#[trigger] lines[i + 1], details[i], None, None, Emphasis::Dimmed)
    &&& painted(lines[details.len() + 1int], fix_line_text(vuln.fix_available), Some(fix_color(vuln.fix_available)), None, Emphasis::Bold)
    &&& lines[details.len() + 2int] == Seq::<char>::empty()
}

/// Every line printed for a vulnerability, rendered: the header, the detail
/// lines dimmed, the fix line, and an empty line.
pub fn vulnerability_block(
    vuln: &Vulnerability,
    outdated: &NameMap<OutdatedEntry>,
    chains: &NameMap<Vec<Vec<String>>>,
) -> (r: Vec<String>)
    ensures
        ({
            let d = details_text(*vuln, lookup(outdated.pairs(), vuln.name@), chains_under(chains, vuln.name@));
            &&& block_rendering(views(r@), *vuln, d)
            &&& (!vuln.name@.contains(esc()) && !vuln.range@.contains(esc())
                && (forall|i: int| 0 <= i < d.len() ==> !(#[trigger] d[i]).contains(esc()))
                && !fix_line_text(vuln.fix_available).contains(esc())) ==> forall|i: int|
                0 <= i < r@.len() ==> strip_ansi(#[trigger] r@[i]@) == plain_block(*vuln, d)[i]
        }),
{
    let details = vulnerability_details(vuln, outdated, chains);
    let ghost d = views(details@);
    let mut out: Vec<String> = Vec::new();
    out.push(format_vulnerability_header(vuln));
    let n = details.len();
    for i in 0..n
        invariant
            n == d.len(),
            d == views(details@),
            out@.len() == i + 1,
            header_rendering(out@[0]@, *vuln),
            forall|j: int| 0 <= j < i ==> painted(#[trigger] out@[j + 1]@, d[j], None, None, Emphasis::Dimmed),
    {
        let text = details[i].clone();
        assert(text@ == d[i as int]);
        out.push(render_with_colored(&Styled { text, fg: None, bg: None, emphasis: Emphasis::Dimmed }));
    }
    out.push(render_with_colored(&format_fix_line(&vuln.fix_available)));
    out.push(String::new());
    assert(block_rendering(views(out@), *vuln, d)) by {
        assert forall|i: int| 0 <= i < d.len() implies painted(#[trigger] views(out@)[i + 1], d[i], None, None, Emphasis::Dimmed) by {
            assert(views(out@)[i + 1] == out@[i + 1]@);
        }
    }
    proof {
        if !vuln.name@.contains(esc()) && !vuln.range@.contains(esc()) && (forall|i: int| 0 <= i < d.len()
            ==> !(#[trigger] d[i]).contains(esc())) && !fix_line_text(vuln.fix_available).contains(esc()) {
            lemma_block_stripped(views(out@), *vuln, d);
            assert forall|i: int| 0 <= i < out@.len() implies strip_ansi(#[trigger] out@[i]@) == plain_block(*vuln, d)[i] by {
                assert(views(out@)[i] == out@[i]@);
            }
        }
    }
    out
}

/// The part of the summary on one severity: none when its count is zero.
pub open spec fn summary_entry(emoji: Seq<char>, label: Seq<char>, count: u32) -> Seq<Seq<char>> {
    if count > 0 {
        seq![emoji + " "@ + decimal(count as nat) + " "@ + label]
    } else {
        Seq::empty()
    }
}

/// The parts of the summary, from the most severe down; `info` is left out.
pub open spec fn summary_parts(counts: VulnCount) -> Seq<Seq<char>> {
    summary_entry("🔴"@, "Critical"@, counts.critical) + summary_entry("🟠"@, "High"@, counts.high)
        + summary_entry("🟡"@, "Moderate"@, counts.moderate) + summary_entry("🟢"@, "Low"@, counts.low)
}

/// The mention of the report's overall total, when one is given.
pub open spec fn total_suffix(total: Option<u32>) -> Seq<char> {
    match total {
        Some(n) => " out of "@ + decimal(n as nat) + " total"@,
        None => Seq::empty(),
    }
}

/// The summary line.
pub open spec fn summary_text(counts: VulnCount, total: Option<u32>) -> Seq<char> {
    "Found "@ + seq_join(summary_parts(counts), ", "@) + ", (Total: "@ + decimal(counts.total as nat)
        + total_suffix(total) + ")!\n"@
}

/// Appends the summary part on one severity to `parts`, if its count is not zero.
fn push_summary_entry(parts: &mut Vec<String>, emoji: &str, label: &str, count: u32)
    ensures
        views(final(parts)@) == views(old(parts)@) + summary_entry(emoji@, label@, count),
{
    if count > 0 {
        let mut part = String::from_str(emoji);
        part.append(" ");
        push_decimal(&mut part, count);
        part.append(" ");
        part.append(label);
        parts.push(part);
        assert(views(parts@) =~= views(old(parts)@) + summary_entry(emoji@, label@, count));
    } else {
        assert(views(parts@) =~= views(old(parts)@) + summary_entry(emoji@, label@, count));
    }
}

/// The summary line: the count of each severity from `critical` down to
/// `low` that is not zero, the total of the counts, and the report's overall
/// total when it is given.
pub fn format_summary(counts: &VulnCount, total: Option<u32>) -> (r: String)
    ensures
        r@ == summary_text(*counts, total),
        counts.critical > 0 ==> has_substring(r@, "🔴 "@ + decimal(counts.critical as nat) + " Critical"@),
        counts.high > 0 ==> has_substring(r@, "🟠 "@ + decimal(counts.high as nat) + " High"@),
        counts.moderate > 0 ==> has_substring(r@, "🟡 "@ + decimal(counts.moderate as nat) + " Moderate"@),
        counts.low > 0 ==> has_substring(r@, "🟢 "@ + decimal(counts.low as nat) + " Low"@),
{
    let mut parts: Vec<String> = Vec::new();
    assert(views(parts@) =~= Seq::<Seq<char>>::empty());
    push_summary_entry(&mut parts, "🔴", "Critical", counts.critical);
    push_summary_entry(&mut parts, "🟠", "High", counts.high);
    push_summary_entry(&mut parts, "🟡", "Moderate", counts.moderate);
    push_summary_entry(&mut parts, "🟢", "Low", counts.low);
    assert(views(parts@) =~= summary_parts(*counts));
    let summary = join(parts.as_slice(), ", ");
    let mut r = String::from_str("Found ");
    r.append(summary.as_str());
    r.append(", (Total: ");
    push_decimal(&mut r, counts.total);
    match total {
        Some(n) => {
            r.append(" out of ");
            push_decimal(&mut r, n);
            r.append(" total");
        },
        None => {},
    }
    r.append(")!\n");
    proof {
        lemma_summary_mentions(*counts, total);
    }
    r
}

/// The overall total that the summary mentions: the report's own total,
/// when a lowest severity is given; none otherwise.
pub open spec fn shown_total(report: AuditReport, min_severity: Option<Severity>) -> Option<u32> {
    match min_severity {
        Some(_) => Some(report.metadata.vulnerabilities.total),
        None => None,
    }
}

/// The line that ends the report on the vulnerabilities `shown`: that none
/// were found, or the summary of their counts.
pub open spec fn closing_text(report: AuditReport, min_severity: Option<Severity>, shown: Seq<Vulnerability>) -> Seq<char> {
    if shown.len() == 0 {
        "No vulnerabilities found!"@
    } else {
        summary_text(count_of(shown), shown_total(report, min_severity))
    }
}

/// The line that ends the report on the vulnerabilities `shown`: that none
/// were found, or the summary of their counts, with the report's overall
/// total when a lowest severity is given.
pub fn closing_line(report: &AuditReport, min_severity: Option<Severity>, shown: &Vec<&Vulnerability>) -> (r: String)
    requires
        shown@.len() <= u32::MAX,
    ensures
        r@ == closing_text(*report, min_severity, targets(shown@)),
{
    if shown.len() == 0 {
        return String::from_str("No vulnerabilities found!");
    }
    let counts = VulnCount::from_iter(shown);
    let total = match min_severity {
        Some(_) => Some(report.metadata.vulnerabilities.total),
        None => None,
    };
    format_summary(&counts, total)
}

/// The names of the packages of `vulns`, in order.
pub fn package_names(vulns: &Vec<&Vulnerability>) -> (r: Vec<String>)
    ensures
        views(r@) == targets(vulns@).map_values(|v: Vulnerability| v.name@),
{
    let n = vulns.len();
    let mut out: Vec<String> = Vec::new();
    for i in 0..n
        invariant
            n == vulns@.len(),
            views(out@) == targets(vulns@).take(i as int).map_values(|v: Vulnerability| v.name@),
    {
        let name = vulns[i].name.clone();
        let ghost before = views(out@);
        out.push(name);
        assert(views(out@) =~= before.push(name@));
        assert(targets(vulns@).take(i + 1).map_values(|v: Vulnerability| v.name@)
            =~= targets(vulns@).take(i as int).map_values(|v: Vulnerability| v.name@).push(name@));
    }
    assert(targets(vulns@).take(n as int) =~= targets(vulns@));
    out
}

/// Stripping two pieces that each end outside an escape sequence.
proof fn lemma_strip_join(x: Seq<char>, y: Seq<char>)
    requires
        !ends_in_escape(x, false),
        !ends_in_escape(y, false),
    ensures
        strip_ansi(x + y) == strip_ansi(x) + strip_ansi(y),
        !ends_in_escape(x + y, false),
{
    lemma_strip_concat(x, y, false);
    crate::style::lemma_ends_concat(x, y, false);
}

proof fn lemma_upper_no_esc(s: Seq<char>)
    requires
        !s.contains(esc()),
    ensures
        !ascii_upper(s).contains(esc()),
{
    if ascii_upper(s).contains(esc()) {
        let i = choose|i: int| 0 <= i < ascii_upper(s).len() && ascii_upper(s)[i] == esc();
        assert(ascii_upper_char(s[i]) == esc());
        assert(s[i] == esc());
        assert(s.contains(esc()));
    }
}

proof fn lemma_literal_no_esc(s: Seq<char>)
    requires
        forall|i: int| 0 <= i < s.len() ==> s[i] != esc(),
    ensures
        !s.contains(esc()),
{
}

proof fn lemma_labels_no_esc(vuln: Vulnerability)
    ensures
        !ascii_upper(vuln.severity.label()).contains(esc()),
        !vuln.is_direct.label().contains(esc()),
{
    reveal_strlit("info");
    reveal_strlit("low");
    reveal_strlit("moderate");
    reveal_strlit("high");
    reveal_strlit("critical");
    reveal_strlit("direct");
    reveal_strlit("indirect");
    lemma_literal_no_esc(vuln.severity.label());
    lemma_literal_no_esc(vuln.is_direct.label());
    lemma_upper_no_esc(vuln.severity.label());
}

/// Stripped of its escape sequences, the header is
/// `[SEVERITY] name (range) [dependency type]`, whether or not the terminal
/// gets colors (for names and ranges without escape characters).
pub proof fn lemma_header_stripped(out: Seq<char>, vuln: Vulnerability)
    requires
        header_rendering(out, vuln),
        !vuln.name@.contains(esc()),
        !vuln.range@.contains(esc()),
    ensures
        strip_ansi(out) == plain_header(vuln),
        !ends_in_escape(out, false),
{
    let (a, b, c, d) = choose|sev: Seq<char>, name: Seq<char>, range: Seq<char>, dep: Seq<char>|
        {
            &&& out == header_text(sev, name, range, dep)
            &&& painted(
                sev,
                ascii_upper(vuln.severity.label()),
                Some(Paint::Black),
                Some(severity_background(vuln.severity)),
                Emphasis::Plain,
            )
            &&& painted(name, vuln.name@, None, None, Emphasis::Bold)
            &&& painted(range, vuln.range@, None, None, Emphasis::Dimmed)
            &&& painted(dep, vuln.is_direct.label(), Some(Paint::Cyan), None, Emphasis::Plain)
        };
    lemma_labels_no_esc(vuln);
    lemma_strip_painted(a, ascii_upper(vuln.severity.label()), Some(Paint::Black), Some(severity_background(vuln.severity)), Emphasis::Plain);
    lemma_strip_painted(b, vuln.name@, None, None, Emphasis::Bold);
    lemma_strip_painted(c, vuln.range@, None, None, Emphasis::Dimmed);
    lemma_strip_painted(d, vuln.is_direct.label(), Some(Paint::Cyan), None, Emphasis::Plain);
    reveal_strlit("[");
    reveal_strlit("] ");
    reveal_strlit(" (");
    reveal_strlit(") [");
    reveal_strlit("]");
    let l1 = "["@;
    let l2 = "] "@;
    let l3 = " ("@;
    let l4 = ") ["@;
    let l5 = "]"@;
    lemma_literal_no_esc(l1);
    lemma_literal_no_esc(l2);
    lemma_literal_no_esc(l3);
    lemma_literal_no_esc(l4);
    lemma_literal_no_esc(l5);
    lemma_strip_plain(l1);
    lemma_strip_plain(l2);
    lemma_strip_plain(l3);
    lemma_strip_plain(l4);
    lemma_strip_plain(l5);
    lemma_strip_join(l1, a);
    lemma_strip_join(l1 + a, l2);
    lemma_strip_join(l1 + a + l2, b);
    lemma_strip_join(l1 + a + l2 + b, l3);
    lemma_strip_join(l1 + a + l2 + b + l3, c);
    lemma_strip_join(l1 + a + l2 + b + l3 + c, l4);
    lemma_strip_join(l1 + a + l2 + b + l3 + c + l4, d);
    lemma_strip_join(l1 + a + l2 + b + l3 + c + l4 + d, l5);
}

/// Stripped of their escape sequences, the lines of a vulnerability's
/// block are its plain lines: the header, the detail lines, the fix line
/// and an empty line (for texts without escape characters).
pub proof fn lemma_block_stripped(lines: Seq<Seq<char>>, vuln: Vulnerability, details: Seq<Seq<char>>)
    requires
        block_rendering(lines, vuln, details),
        !vuln.name@.contains(esc()),
        !vuln.range@.contains(esc()),
        forall|i: int| 0 <= i < details.len() ==> !(#[trigger] details[i]).contains(esc()),
        !fix_line_text(vuln.fix_available).contains(esc()),
    ensures
        forall|i: int| 0 <= i < lines.len() ==> strip_ansi(#[trigger] lines[i]) == plain_block(vuln, details)[i],
{
    let p = plain_block(vuln, details);
    lemma_header_stripped(lines[0], vuln);
    lemma_strip_painted(lines[details.len() + 1int], fix_line_text(vuln.fix_available), Some(fix_color(vuln.fix_available)), None, Emphasis::Bold);
    assert forall|i: int| 0 <= i < lines.len() implies strip_ansi(#[trigger] lines[i]) == p[i] by {
        if i == 0 {
        } else if i <= details.len() {
            let k = i - 1;
            assert(painted(lines[k + 1], details[k], None, None, Emphasis::Dimmed));
            assert(lines[k + 1] == lines[i]);
            assert(!details[k].contains(esc()));
            lemma_strip_painted(lines[i], details[k], None, None, Emphasis::Dimmed);
        } else if i == details.len() + 1 {
        } else {
            assert(strip_from(Seq::<char>::empty(), false) =~= Seq::<char>::empty());
        }
    }
}

/// The path lines list every chain of more than one name, in order: with
/// none there is no line, with one a single `  Path: ` line, and with two or
/// more the heading `  Paths:` and then one `    - ` line for each of them.
pub proof fn lemma_path_lines_list(cs: Seq<Chain>)
    ensures
        path_lines(None) == Seq::<Seq<char>>::empty(),
        ({
            let m = cs.filter(|c: Chain| c.len() > 1);
            let lines = path_lines(Some(cs));
            &&& m.len() == 0 ==> lines.len() == 0
            &&& m.len() == 1 ==> lines == seq!["  Path: "@ + seq_join(m[0], " → "@)]
            &&& m.len() >= 2 ==> {
                &&& lines.len() == m.len() + 1
                &&& lines[0] == "  Paths:"@
                &&& forall|k: int| 0 <= k < m.len() ==> lines[k + 1] == "    - "@ + seq_join(#[trigger] m[k], " → "@)
            }
        }),
{
    let m = cs.filter(|c: Chain| c.len() > 1);
    assert(m == multi_hop(cs));
    let lines = path_lines(Some(cs));
    if m.len() >= 2 {
        assert forall|k: int| 0 <= k < m.len() implies lines[k + 1] == "    - "@ + seq_join(#[trigger] m[k], " → "@) by {
            assert(lines[k + 1] == m.map_values(|c: Chain| "    - "@ + chain_text(c))[k]);
        }
    }
}

/// The summary names the count of each of critical, high, moderate and
/// low that is not zero, as `<emoji> <count> <Label>`, and has one part for
/// each of them.
pub proof fn lemma_summary_mentions(counts: VulnCount, total: Option<u32>)
    ensures
        counts.critical > 0 ==> has_substring(
            summary_text(counts, total),
            "🔴 "@ + decimal(counts.critical as nat) + " Critical"@,
        ),
        counts.high > 0 ==> has_substring(
            summary_text(counts, total),
            "🟠 "@ + decimal(counts.high as nat) + " High"@,
        ),
        counts.moderate > 0 ==> has_substring(
            summary_text(counts, total),
            "🟡 "@ + decimal(counts.moderate as nat) + " Moderate"@,
        ),
        counts.low > 0 ==> has_substring(
            summary_text(counts, total),
            "🟢 "@ + decimal(counts.low as nat) + " Low"@,
        ),
        summary_parts(counts).len() == (if counts.critical > 0 { 1int } else { 0 }) + (if counts.high
            > 0 {
            1int
        } else {
            0
        }) + (if counts.moderate > 0 {
            1int
        } else {
            0
        }) + (if counts.low > 0 {
            1int
        } else {
            0
        }),
{
    reveal_strlit("🔴");
    reveal_strlit("🟠");
    reveal_strlit("🟡");
    reveal_strlit("🟢");
    reveal_strlit("🔴 ");
    reveal_strlit("🟠 ");
    reveal_strlit("🟡 ");
    reveal_strlit("🟢 ");
    reveal_strlit(" ");
    reveal_strlit("Critical");
    reveal_strlit("High");
    reveal_strlit("Moderate");
    reveal_strlit("Low");
    reveal_strlit(" Critical");
    reveal_strlit(" High");
    reveal_strlit(" Moderate");
    reveal_strlit(" Low");
    let e1 = summary_entry("🔴"@, "Critical"@, counts.critical);
    let e2 = summary_entry("🟠"@, "High"@, counts.high);
    let e3 = summary_entry("🟡"@, "Moderate"@, counts.moderate);
    let e4 = summary_entry("🟢"@, "Low"@, counts.low);
    let parts = summary_parts(counts);
    assert(parts == e1 + e2 + e3 + e4);
    let joined = seq_join(parts, ", "@);
    let head = "Found "@;
    let rest = ", (Total: "@ + decimal(counts.total as nat) + total_suffix(total) + ")!\n"@;
    assert(summary_text(counts, total) =~= head + joined + rest);
    if counts.critical > 0 {
        let d = decimal(counts.critical as nat);
        assert(parts[0] == e1[0]);
        assert(e1[0] =~= "🔴 "@ + d + " Critical"@);
        lemma_join_holds(parts, ", "@, 0);
        lemma_substring_within(head, joined, rest, parts[0]);
    }
    if counts.high > 0 {
        let d = decimal(counts.high as nat);
        let k = e1.len() as int;
        assert(parts[k] == e2[0]);
        assert(e2[0] =~= "🟠 "@ + d + " High"@);
        lemma_join_holds(parts, ", "@, k);
        lemma_substring_within(head, joined, rest, parts[k]);
    }
    if counts.moderate > 0 {
        let d = decimal(counts.moderate as nat);
        let k = (e1.len() + e2.len()) as int;
        assert(parts[k] == e3[0]);
        assert(e3[0] =~= "🟡 "@ + d + " Moderate"@);
        lemma_join_holds(parts, ", "@, k);
        lemma_substring_within(head, joined, rest, parts[k]);
    }
    if counts.low > 0 {
        let d = decimal(counts.low as nat);
        let k = (e1.len() + e2.len() + e3.len()) as int;
        assert(parts[k] == e4[0]);
        assert(e4[0] =~= "🟢 "@ + d + " Low"@);
        lemma_join_holds(parts, ", "@, k);
        lemma_substring_within(head, joined, rest, parts[k]);
    }
}

} // verus!
