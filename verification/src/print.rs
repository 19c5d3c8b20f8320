//! Formatters that turn a slice of [`Output`] into a printable `String`.

use vstd::prelude::*;

use crate::level::{level_of, Level};
use crate::output::{outputs_view, Output, OutputView};
use crate::text::{
    decimal, escape_newlines, first_line, join, lemma_escaped_has_no_newline,
    lemma_first_line_has_no_newline, push_decimal,
    push_escaped, push_first_line,
};

verus! {

/// The characters of a sequence of strings.
pub open spec fn strings_view(list: Seq<String>) -> Seq<Seq<char>> {
    list.map_values(|s: String| s@)
}

/// Joins `list` with `sep` between each two neighbours.
pub fn join_strings(list: &Vec<String>, sep: &str) -> (r: String)
    ensures
        r@ == join(strings_view(list@), sep@),
{
    let ghost all = strings_view(list@);
    let mut r = String::new();
    let mut i: usize = 0;
    while i < list.len()
        invariant
            all == strings_view(list@),
            0 <= i <= list@.len(),
            r@ == join(all.take(i as int), sep@),
        decreases list@.len() - i,
    {
        assert(all.take(i + 1).drop_last() =~= all.take(i as int));
        if i > 0 {
            r.append(sep);
        }
        r.append(list[i].as_str());
        i = i + 1;
    }
    assert(all.take(list@.len() as int) =~= all);
    r
}

/// The rendered texts of the outputs that have one, one after the other.
pub open spec fn human_text(outputs: Seq<OutputView>) -> Seq<char>
    decreases outputs.len(),
{
    if outputs.len() == 0 {
        Seq::empty()
    } else {
        human_text(outputs.drop_last()) + match outputs.last().rendered() {
            Some(r) => r,
            None => Seq::empty(),
        }
    }
}

/// Plain rendered diagnostics.
pub fn human(outputs: &[Output]) -> (r: String)
    ensures
        r@ == human_text(outputs_view(outputs@)),
{
    let ghost all = outputs_view(outputs@);
    let mut r = String::new();
    let mut i: usize = 0;
    while i < outputs.len()
        invariant
            all == outputs_view(outputs@),
            0 <= i <= outputs@.len(),
            r@ == human_text(all.take(i as int)),
        decreases outputs@.len() - i,
    {
        assert(all.take(i + 1).drop_last() =~= all.take(i as int));
        if let Some(text) = outputs[i].rendered() {
            r.append(text);
        }
        i = i + 1;
    }
    assert(all.take(outputs@.len() as int) =~= all);
    r
}

/// The level column of a summary row: the level with a marker for errors
/// and warnings, the raw level string otherwise, `Unknown` when absent.
pub open spec fn level_cell(o: OutputView) -> Seq<char> {
    match o.level() {
        Some(l) => match level_of(l) {
            Some(Level::Error) => "\u{274c} error"@,
            Some(Level::Warning) => "\u{26a0}\u{fe0f} warning"@,
            None => l,
        },
        None => "Unknown"@,
    }
}

/// The location column: `file:line` of the first span, `-` without a file.
pub open spec fn location_cell(o: OutputView) -> Seq<char> {
    match o.file_name() {
        Some(f) => match o.line_start() {
            Some(l) => f + ":"@ + decimal(l as nat),
            None => f,
        },
        None => "-"@,
    }
}

/// The rule column: the diagnostic's code, `-` without one.
pub open spec fn rule_cell(o: OutputView) -> Seq<char> {
    match o.rule() {
        Some(c) => c,
        None => "-"@,
    }
}

/// The message column: the first line of the message.
pub open spec fn message_cell(o: OutputView) -> Seq<char> {
    first_line(
        match o.text() {
            Some(m) => m,
            None => "No message"@,
        },
    )
}

/// One row of the summary table.
pub open spec fn summary_row(o: OutputView) -> Seq<char> {
    "| "@ + level_cell(o) + " | "@ + location_cell(o) + " | "@ + rule_cell(o) + " | "@
        + message_cell(o) + " |"@
}

/// The header and separator lines of the summary table.
pub open spec fn summary_header() -> Seq<char> {
    "| Level | Location | Rule | Message |\n| --- | --- | --- | --- |\n"@
}

/// The Markdown summary: a greeting when there is nothing to report, a table
/// with one row per output otherwise.
pub open spec fn summary_text(outputs: Seq<OutputView>, any_success: bool) -> Seq<char> {
    if outputs.len() == 0 {
        if any_success {
            "\u{1f980} Cargo is Happy !"@
        } else {
            "\u{1f612} Cargo is Sad !"@
        }
    } else {
        summary_header() + join(outputs.map_values(|o: OutputView| summary_row(o)), "\n"@)
    }
}

fn summary_row_of(o: &Output) -> (r: String)
    ensures
        r@ == summary_row(o@),
{
    let mut r = String::new();
    r.append("| ");
    match o.level() {
        Some(l) => match Level::from_str(l) {
            Some(Level::Error) => r.append("\u{274c} error"),
            Some(Level::Warning) => r.append("\u{26a0}\u{fe0f} warning"),
            None => r.append(l),
        },
        None => r.append("Unknown"),
    }
    r.append(" | ");
    match o.file_name() {
        Some(f) => {
            r.append(f);
            if let Some(l) = o.line_start() {
                r.append(":");
                push_decimal(&mut r, l);
            }
        },
        None => r.append("-"),
    }
    r.append(" | ");
    match o.rule() {
        Some(c) => r.append(c),
        None => r.append("-"),
    }
    r.append(" | ");
    match o.message() {
        Some(m) => push_first_line(&mut r, m.as_str()),
        None => push_first_line(&mut r, "No message"),
    }
    r.append(" |");
    r
}

/// Markdown table for `$GITHUB_STEP_SUMMARY`.
pub fn github_summary(outputs: &[Output], any_success: bool) -> (r: String)
    ensures
        r@ == summary_text(outputs_view(outputs@), any_success),
{
    if outputs.len() == 0 {
        return if any_success {
            String::from_str("\u{1f980} Cargo is Happy !")
        } else {
            String::from_str("\u{1f612} Cargo is Sad !")
        };
    }
    let ghost all = outputs_view(outputs@);
    let mut rows: Vec<String> = Vec::new();
    let mut i: usize = 0;
    while i < outputs.len()
        invariant
            all == outputs_view(outputs@),
            0 <= i <= outputs@.len(),
            strings_view(rows@) == all.take(i as int).map_values(|o: OutputView| summary_row(o)),
        decreases outputs@.len() - i,
    {
        let ghost prev = strings_view(rows@);
        let row = summary_row_of(&outputs[i]);
        assert(all[i as int] == outputs@[i as int]@);
        rows.push(row);
        assert(strings_view(rows@) =~= prev.push(summary_row(all[i as int])));
        assert(all.take(i + 1).map_values(|o: OutputView| summary_row(o)) =~= all.take(i as int).map_values(
            |o: OutputView| summary_row(o),
        ).push(summary_row(all[i as int])));
        i = i + 1;
    }
    assert(all.take(outputs@.len() as int) =~= all);
    let mut table = String::from_str("| Level | Location | Rule | Message |\n| --- | --- | --- | --- |\n");
    let body = join_strings(&rows, "\n");
    table.append(body.as_str());
    table
}

/// An annotation property `key` followed by its value, when there is one.
pub open spec fn text_option(key: Seq<char>, value: Option<Seq<char>>) -> Seq<Seq<char>> {
    match value {
        Some(v) => seq![key + v],
        None => Seq::empty(),
    }
}

/// An annotation property `key` followed by a decimal number, when there is one.
pub open spec fn number_option(key: Seq<char>, value: Option<usize>) -> Seq<Seq<char>> {
    match value {
        Some(n) => seq![key + decimal(n as nat)],
        None => Seq::empty(),
    }
}

/// The properties of a workflow command, in the order GitHub documents them.
pub open spec fn annotation_options(o: OutputView) -> Seq<Seq<char>> {
    text_option("file="@, o.file_name()) + number_option("line="@, o.line_start())
        + number_option("endLine="@, o.line_end()) + number_option("col="@, o.column_start())
        + number_option("endColumn="@, o.column_end()) + text_option("title="@, o.text())
}

/// The workflow command that annotates one diagnostic:
/// `::level props::body`, or `::level::body` when there are no properties.
/// Line feeds in the body are encoded as `%0A`.
pub open spec fn annotation(o: OutputView) -> Seq<char> {
    let level = match o.level() {
        Some(l) => l,
        None => "notice"@,
    };
    let body = escape_newlines(
        match o.rendered() {
            Some(r) => r,
            None => "No message"@,
        },
    );
    let options = annotation_options(o);
    if options.len() == 0 {
        "::"@ + level + "::"@ + body
    } else {
        "::"@ + level + " "@ + join(options, ","@) + "::"@ + body
    }
}

/// The annotations of all outputs, one per line.
pub open spec fn annotations(outputs: Seq<OutputView>) -> Seq<char> {
    join(outputs.map_values(|o: OutputView| annotation(o)), "\n"@)
}

fn push_text_option(items: &mut Vec<String>, key: &str, value: Option<&str>)
    ensures
        strings_view(final(items)@) == strings_view(old(items)@) + text_option(
            key@,
            match value {
                Some(v) => Some(v@),
                None => None,
            },
        ),
{
    match value {
        Some(v) => {
            let mut item = String::from_str(key);
            item.append(v);
            items.push(item);
            assert(strings_view(items@) =~= strings_view(old(items)@) + seq![key@ + v@]);
        },
        None => {
            assert(strings_view(items@) =~= strings_view(old(items)@) + Seq::<Seq<char>>::empty());
        },
    }
}

fn push_number_option(items: &mut Vec<String>, key: &str, value: Option<usize>)
    ensures
        strings_view(final(items)@) == strings_view(old(items)@) + number_option(key@, value),
{
    match value {
        Some(n) => {
            let mut item = String::from_str(key);
            push_decimal(&mut item, n);
            items.push(item);
            assert(strings_view(items@) =~= strings_view(old(items)@) + seq![key@ + decimal(n as nat)]);
        },
        None => {
            assert(strings_view(items@) =~= strings_view(old(items)@) + Seq::<Seq<char>>::empty());
        },
    }
}

fn annotation_of(o: &Output) -> (r: String)
    ensures
        r@ == annotation(o@),
{
    let mut items: Vec<String> = Vec::new();
    assert(strings_view(items@) =~= Seq::<Seq<char>>::empty());
    push_text_option(&mut items, "file=", o.file_name());
    push_number_option(&mut items, "line=", o.line_start());
    push_number_option(&mut items, "endLine=", o.line_end());
    push_number_option(&mut items, "col=", o.column_start());
    push_number_option(&mut items, "endColumn=", o.column_end());
    let title = o.message();
    match &title {
        Some(t) => push_text_option(&mut items, "title=", Some(t.as_str())),
        None => push_text_option(&mut items, "title=", None),
    }
    assert(strings_view(items@) =~= annotation_options(o@));
    let mut r = String::from_str("::");
    match o.level() {
        Some(l) => r.append(l),
        None => r.append("notice"),
    }
    if items.len() == 0 {
        r.append("::");
    } else {
        r.append(" ");
        let options = join_strings(&items, ",");
        r.append(options.as_str());
        r.append("::");
    }
    match o.rendered() {
        Some(body) => push_escaped(&mut r, body),
        None => push_escaped(&mut r, "No message"),
    }
    r
}

/// GitHub workflow commands for inline PR annotations, one line per output.
pub fn github_pr_annotation(outputs: &[Output]) -> (r: String)
    ensures
        r@ == annotations(outputs_view(outputs@)),
{
    let ghost all = outputs_view(outputs@);
    let mut lines: Vec<String> = Vec::new();
    let mut i: usize = 0;
    while i < outputs.len()
        invariant
            all == outputs_view(outputs@),
            0 <= i <= outputs@.len(),
            strings_view(lines@) == all.take(i as int).map_values(|o: OutputView| annotation(o)),
        decreases outputs@.len() - i,
    {
        let ghost prev = strings_view(lines@);
        let line = annotation_of(&outputs[i]);
        assert(all[i as int] == outputs@[i as int]@);
        lines.push(line);
        assert(strings_view(lines@) =~= prev.push(annotation(all[i as int])));
        assert(all.take(i + 1).map_values(|o: OutputView| annotation(o)) =~= all.take(i as int).map_values(
            |o: OutputView| annotation(o),
        ).push(annotation(all[i as int])));
        i = i + 1;
    }
    assert(all.take(outputs@.len() as int) =~= all);
    join_strings(&lines, "\n")
}

/// `s` holds no line feed.
pub open spec fn single_line(s: Seq<char>) -> bool {
    !s.contains('\n')
}

proof fn lemma_concat_single_line(a: Seq<char>, b: Seq<char>)
    requires
        single_line(a),
        single_line(b),
    ensures
        single_line(a + b),
{
    if (a + b).contains('\n') {
        let k = choose|k: int| 0 <= k < (a + b).len() && (a + b)[k] == '\n';
        if k < a.len() {
            assert(a[k] == '\n');
        } else {
            assert(b[k - a.len()] == '\n');
        }
    }
}

proof fn lemma_decimal_single_line(n: nat)
    ensures
        single_line(decimal(n)),
    decreases n,
{
    if n >= 10 {
        lemma_decimal_single_line(n / 10);
        lemma_concat_single_line(decimal(n / 10), seq![crate::text::digit_char(n % 10)]);
        assert(decimal(n) =~= decimal(n / 10) + seq![crate::text::digit_char(n % 10)]);
    } else {
        if decimal(n).contains('\n') {
            let k = choose|k: int| 0 <= k < decimal(n).len() && decimal(n)[k] == '\n';
            assert(k == 0);
        }
    }
}

proof fn lemma_join_single_line(list: Seq<Seq<char>>, sep: Seq<char>)
    requires
        single_line(sep),
        forall|i: int| 0 <= i < list.len() ==> single_line(#[trigger] list[i]),
    ensures
        single_line(join(list, sep)),
    decreases list.len(),
{
    if list.len() == 0 {
        assert(!Seq::<char>::empty().contains('\n'));
    } else if list.len() > 1 {
        let init = list.drop_last();
        assert forall|i: int| 0 <= i < init.len() implies single_line(#[trigger] init[i]) by {
            assert(init[i] == list[i]);
        }
        lemma_join_single_line(init, sep);
        lemma_concat_single_line(join(init, sep), sep);
        lemma_concat_single_line(join(init, sep) + sep, list.last());
    }
}

/// No string of the list holds a line feed.
pub open spec fn all_single_line(list: Seq<Seq<char>>) -> bool {
    forall|i: int| 0 <= i < list.len() ==> single_line(#[trigger] list[i])
}

proof fn lemma_all_single_line_concat(a: Seq<Seq<char>>, b: Seq<Seq<char>>)
    requires
        all_single_line(a),
        all_single_line(b),
    ensures
        all_single_line(a + b),
{
    assert forall|i: int| 0 <= i < (a + b).len() implies single_line(#[trigger] (a + b)[i]) by {
        if i < a.len() {
            assert((a + b)[i] == a[i]);
        } else {
            assert((a + b)[i] == b[i - a.len()]);
        }
    }
}

proof fn lemma_keyed_single_line(key: Seq<char>, value: Seq<char>)
    requires
        single_line(key),
        single_line(value),
    ensures
        single_line(key + value),
{
    lemma_concat_single_line(key, value);
}

proof fn lemma_literal_single_line(s: Seq<char>)
    requires
        forall|i: int| 0 <= i < s.len() ==> s[i] != '\n',
    ensures
        single_line(s),
{
}

/// An annotation is one line of text, given that the diagnostic's level,
/// file name and message hold no line feed: the rendered body has its line
/// feeds encoded as `%0A`, and nothing else can hold one.
pub proof fn lemma_annotation_single_line(o: OutputView)
    requires
        annotation_fits_one_line(o),
    ensures
        single_line(annotation(o)),
{
    reveal_strlit("::");
    reveal_strlit(" ");
    reveal_strlit(",");
    reveal_strlit("notice");
    reveal_strlit("file=");
    reveal_strlit("line=");
    reveal_strlit("endLine=");
    reveal_strlit("col=");
    reveal_strlit("endColumn=");
    reveal_strlit("title=");
    lemma_literal_single_line("::"@);
    lemma_literal_single_line(" "@);
    lemma_literal_single_line(","@);
    lemma_literal_single_line("notice"@);
    lemma_literal_single_line("file="@);
    lemma_literal_single_line("line="@);
    lemma_literal_single_line("endLine="@);
    lemma_literal_single_line("col="@);
    lemma_literal_single_line("endColumn="@);
    lemma_literal_single_line("title="@);
    let level = match o.level() {
        Some(l) => l,
        None => "notice"@,
    };
    let rendered = match o.rendered() {
        Some(r) => r,
        None => "No message"@,
    };
    let body = escape_newlines(rendered);
    lemma_escaped_has_no_newline(rendered);
    let options = annotation_options(o);
    if let Some(f) = o.file_name() {
        lemma_keyed_single_line("file="@, f);
    }
    if let Some(n) = o.line_start() {
        lemma_decimal_single_line(n as nat);
        lemma_keyed_single_line("line="@, decimal(n as nat));
    }
    if let Some(n) = o.line_end() {
        lemma_decimal_single_line(n as nat);
        lemma_keyed_single_line("endLine="@, decimal(n as nat));
    }
    if let Some(n) = o.column_start() {
        lemma_decimal_single_line(n as nat);
        lemma_keyed_single_line("col="@, decimal(n as nat));
    }
    if let Some(n) = o.column_end() {
        lemma_decimal_single_line(n as nat);
        lemma_keyed_single_line("endColumn="@, decimal(n as nat));
    }
    if let Some(m) = o.text() {
        lemma_keyed_single_line("title="@, m);
    }
    let p1 = text_option("file="@, o.file_name());
    let p2 = number_option("line="@, o.line_start());
    let p3 = number_option("endLine="@, o.line_end());
    let p4 = number_option("col="@, o.column_start());
    let p5 = number_option("endColumn="@, o.column_end());
    let p6 = text_option("title="@, o.text());
    lemma_all_single_line_concat(p1, p2);
    lemma_all_single_line_concat(p1 + p2, p3);
    lemma_all_single_line_concat(p1 + p2 + p3, p4);
    lemma_all_single_line_concat(p1 + p2 + p3 + p4, p5);
    lemma_all_single_line_concat(p1 + p2 + p3 + p4 + p5, p6);
    lemma_join_single_line(options, ","@);
    lemma_concat_single_line("::"@, level);
    if options.len() == 0 {
        lemma_concat_single_line("::"@ + level, "::"@);
        lemma_concat_single_line("::"@ + level + "::"@, body);
    } else {
        lemma_concat_single_line("::"@ + level, " "@);
        lemma_concat_single_line("::"@ + level + " "@, join(options, ","@));
        lemma_concat_single_line("::"@ + level + " "@ + join(options, ","@), "::"@);
        lemma_concat_single_line("::"@ + level + " "@ + join(options, ","@) + "::"@, body);
    }
}

/// The number of line feeds in `s`.
pub open spec fn count_newlines(s: Seq<char>) -> nat
    decreases s.len(),
{
    if s.len() == 0 {
        0
    } else {
        count_newlines(s.drop_last()) + if s.last() == '\n' {
            1nat
        } else {
            0nat
        }
    }
}

proof fn lemma_count_newlines_concat(a: Seq<char>, b: Seq<char>)
    ensures
        count_newlines(a + b) == count_newlines(a) + count_newlines(b),
    decreases b.len(),
{
    if b.len() == 0 {
        assert(a + b =~= a);
    } else {
        lemma_count_newlines_concat(a, b.drop_last());
        assert((a + b).drop_last() =~= a + b.drop_last());
    }
}

proof fn lemma_single_line_count(s: Seq<char>)
    requires
        single_line(s),
    ensures
        count_newlines(s) == 0,
    decreases s.len(),
{
    if s.len() > 0 {
        assert(s.last() == s[s.len() - 1]);
        assert forall|i: int| 0 <= i < s.drop_last().len() implies s.drop_last()[i] != '\n' by {
            assert(s.drop_last()[i] == s[i]);
        }
        lemma_single_line_count(s.drop_last());
    }
}

proof fn lemma_join_lines(list: Seq<Seq<char>>)
    requires
        list.len() > 0,
        all_single_line(list),
    ensures
        count_newlines(join(list, "\n"@)) == list.len() - 1,
    decreases list.len(),
{
    reveal_strlit("\n");
    if list.len() == 1 {
        lemma_single_line_count(list[0]);
    } else {
        let init = list.drop_last();
        assert forall|i: int| 0 <= i < init.len() implies single_line(#[trigger] init[i]) by {
            assert(init[i] == list[i]);
        }
        lemma_join_lines(init);
        lemma_count_newlines_concat(join(init, "\n"@), "\n"@);
        lemma_count_newlines_concat(join(init, "\n"@) + "\n"@, list.last());
        lemma_single_line_count(list.last());
        assert(count_newlines("\n"@) == 1) by {
            reveal_strlit("\n");
            let nl = "\n"@;
            assert(nl.len() == 1);
            assert(nl.last() == '\n');
            assert(nl.drop_last() =~= Seq::<char>::empty());
            assert(count_newlines(nl.drop_last()) == 0);
        }
    }
}

/// The conditions under which the annotation of `o` is one line: its level,
/// file name and message hold no line feed.
pub open spec fn annotation_fits_one_line(o: OutputView) -> bool {
    &&& (o.level() matches Some(l) ==> single_line(l))
    &&& (o.file_name() matches Some(f) ==> single_line(f))
    &&& (o.text() matches Some(m) ==> single_line(m))
}

/// Each diagnostic gives exactly one line of annotations: for `n` outputs
/// whose level, file name and message hold no line feed, the annotation
/// text holds exactly `n - 1` line feeds.
pub proof fn lemma_one_annotation_per_line(outputs: Seq<OutputView>)
    requires
        outputs.len() > 0,
        forall|i: int| 0 <= i < outputs.len() ==> annotation_fits_one_line(#[trigger] outputs[i]),
    ensures
        count_newlines(annotations(outputs)) == outputs.len() - 1,
{
    let lines = outputs.map_values(|o: OutputView| annotation(o));
    assert forall|i: int| 0 <= i < lines.len() implies single_line(#[trigger] lines[i]) by {
        lemma_annotation_single_line(outputs[i]);
    }
    lemma_join_lines(lines);
}

/// The conditions under which the summary row of `o` is one line: its level,
/// file name and rule hold no line feed. The message needs none: only its
/// first line is shown.
pub open spec fn row_fits_one_line(o: OutputView) -> bool {
    &&& (o.level() matches Some(l) ==> single_line(l))
    &&& (o.file_name() matches Some(f) ==> single_line(f))
    &&& (o.rule() matches Some(c) ==> single_line(c))
}

proof fn lemma_summary_row_single_line(o: OutputView)
    requires
        row_fits_one_line(o),
    ensures
        single_line(summary_row(o)),
{
    reveal_strlit("| ");
    reveal_strlit(" | ");
    reveal_strlit(" |");
    reveal_strlit("\u{274c} error");
    reveal_strlit("\u{26a0}\u{fe0f} warning");
    reveal_strlit("Unknown");
    reveal_strlit(":");
    reveal_strlit("-");
    lemma_literal_single_line("| "@);
    lemma_literal_single_line(" | "@);
    lemma_literal_single_line(" |"@);
    lemma_literal_single_line("\u{274c} error"@);
    lemma_literal_single_line("\u{26a0}\u{fe0f} warning"@);
    lemma_literal_single_line("Unknown"@);
    lemma_literal_single_line(":"@);
    lemma_literal_single_line("-"@);
    let lc = level_cell(o);
    let loc = location_cell(o);
    let rc = rule_cell(o);
    let mc = message_cell(o);
    lemma_first_line_has_no_newline(
        match o.text() {
            Some(m) => m,
            None => "No message"@,
        },
    );
    if let Some(f) = o.file_name() {
        if let Some(l) = o.line_start() {
            lemma_decimal_single_line(l as nat);
            lemma_concat_single_line(f, ":"@);
            lemma_concat_single_line(f + ":"@, decimal(l as nat));
        }
    }
    lemma_concat_single_line("| "@, lc);
    lemma_concat_single_line("| "@ + lc, " | "@);
    lemma_concat_single_line("| "@ + lc + " | "@, loc);
    lemma_concat_single_line("| "@ + lc + " | "@ + loc, " | "@);
    lemma_concat_single_line("| "@ + lc + " | "@ + loc + " | "@, rc);
    lemma_concat_single_line("| "@ + lc + " | "@ + loc + " | "@ + rc, " | "@);
    lemma_concat_single_line("| "@ + lc + " | "@ + loc + " | "@ + rc + " | "@, mc);
    lemma_concat_single_line("| "@ + lc + " | "@ + loc + " | "@ + rc + " | "@ + mc, " |"@);
}

/// Each diagnostic gives exactly one row of the summary table: for `n`
/// outputs whose level, file name and rule hold no line feed, the body of
/// the table holds exactly `n - 1` line feeds.
pub proof fn lemma_one_row_per_line(outputs: Seq<OutputView>)
    requires
        outputs.len() > 0,
        forall|i: int| 0 <= i < outputs.len() ==> row_fits_one_line(#[trigger] outputs[i]),
    ensures
        summary_text(outputs, true) == summary_text(outputs, false),
        summary_text(outputs, true) == summary_header() + join(
            outputs.map_values(|o: OutputView| summary_row(o)),
            "\n"@,
        ),
        count_newlines(join(outputs.map_values(|o: OutputView| summary_row(o)), "\n"@)) == outputs.len()
            - 1,
{
    let rows = outputs.map_values(|o: OutputView| summary_row(o));
    assert forall|i: int| 0 <= i < rows.len() implies single_line(#[trigger] rows[i]) by {
        lemma_summary_row_single_line(outputs[i]);
    }
    lemma_join_lines(rows);
}

/// Human output is each output's whole rendered text, nothing for an output
/// without one, and the texts of several outputs one after the other.
pub proof fn lemma_human_text(a: Seq<OutputView>, b: Seq<OutputView>, o: OutputView)
    ensures
        human_text(Seq::empty()) == Seq::<char>::empty(),
        human_text(seq![o]) == match o.rendered() {
            Some(r) => r,
            None => Seq::<char>::empty(),
        },
        human_text(a + b) == human_text(a) + human_text(b),
    decreases b.len(),
{
    assert(seq![o].drop_last() =~= Seq::<OutputView>::empty());
    if b.len() == 0 {
        assert(a + b =~= a);
    } else {
        lemma_human_text(a, b.drop_last(), o);
        assert((a + b).drop_last() =~= a + b.drop_last());
        assert((a + b).last() == b.last());
    }
}

} // verus!
