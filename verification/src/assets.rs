//! The asset table that a bastion's menu prints, and what its text says.
use crate::lists;
use crate::output;
use crate::output::strip_ansi;
use crate::search;
use crate::search::find_chars;
use crate::text;
use crate::text::{contains, decimal, digit, digits, same, split, to_chars, trim, trimmed_ends_with};
use vstd::prelude::*;

verus! {

/// A row of the asset table.
#[derive(Clone, Debug, PartialEq, Eq)]
pub struct JumpserverAssetRow {
    pub id: String,
    pub ip: String,
}

impl View for JumpserverAssetRow {
    type V = (Seq<char>, Seq<char>);

    open spec fn view(&self) -> (Seq<char>, Seq<char>) {
        (self.id@, self.ip@)
    }
}

/// The page that a paginated table shows, and how many there are.
#[derive(Clone, Copy, Debug, PartialEq, Eq, Structural)]
pub struct PageStatus {
    pub current: u32,
    pub total: u32,
}

pub open spec fn row_views(rows: Seq<JumpserverAssetRow>) -> Seq<(Seq<char>, Seq<char>)> {
    Seq::new(rows.len(), |i: int| rows[i]@)
}

/// Four runs of digits with a dot between two of them.
pub open spec fn is_ipv4(s: Seq<char>) -> bool {
    let parts = text::split_of(s, '.');
    parts.len() == 4 && forall|i: int|
        0 <= i < 4 ==> (#[trigger] parts[i]).len() > 0 && text::all_digits(parts[i])
}

fn only_digits(s: &str) -> (r: bool)
    ensures
        r == text::all_digits(s@),
{
    let v = to_chars(s);
    let mut i: usize = 0;
    while i < v.len()
        invariant
            i <= v.len(),
            v@ == s@,
            forall|j: int| 0 <= j < i ==> text::is_digit(#[trigger] v@[j]),
        decreases v.len() - i,
    {
        if !digit(v[i]) {
            assert(!text::is_digit(s@[i as int]));
            return false;
        }
        i += 1;
    }
    true
}

/// Whether a value has the shape of an IPv4 address.
pub fn looks_like_ipv4(value: &str) -> (r: bool)
    ensures
        r == is_ipv4(value@),
{
    let parts = split(value, '.');
    let ghost views = text::split_of(value@, '.');
    assert(views == text::texts(parts@));
    if parts.len() != 4 {
        return false;
    }
    let mut i: usize = 0;
    while i < 4
        invariant
            i <= 4,
            parts.len() == 4,
            views == text::texts(parts@),
            views == text::split_of(value@, '.'),
            forall|j: int|
                0 <= j < i ==> (#[trigger] views[j]).len() > 0 && text::all_digits(views[j]),
        decreases 4 - i,
    {
        assert(views[i as int] == parts@[i as int]@);
        if parts[i].as_str().is_empty() || !only_digits(parts[i].as_str()) {
            return false;
        }
        i += 1;
    }
    true
}

/// The row that a line of the table is: a number in its first column and an address in
/// its third.
pub open spec fn row_of(line: Seq<char>) -> Option<(Seq<char>, Seq<char>)> {
    let columns = text::split_of(line, '|');
    if columns.len() < 3 {
        None
    } else {
        let id = text::trim_of(columns[0]);
        let ip = text::trim_of(columns[2]);
        if text::all_digits(id) && is_ipv4(ip) {
            Some((id, ip))
        } else {
            None
        }
    }
}

/// The rows among some lines.
pub open spec fn rows_of(lines: Seq<Seq<char>>) -> Seq<(Seq<char>, Seq<char>)>
    decreases lines.len(),
{
    if lines.len() == 0 {
        Seq::empty()
    } else {
        match row_of(lines.last()) {
            Some(row) => rows_of(lines.drop_last()).push(row),
            None => rows_of(lines.drop_last()),
        }
    }
}

/// The rows of the asset table in a text.
pub open spec fn asset_rows(s: Seq<char>) -> Seq<(Seq<char>, Seq<char>)> {
    rows_of(text::split_of(output::ansi_free(s), '\n'))
}

fn parse_row(line: &str) -> (r: Option<JumpserverAssetRow>)
    ensures
        match r {
            Some(row) => row_of(line@) == Some(row@),
            None => row_of(line@) is None,
        },
{
    let columns = split(line, '|');
    let ghost views = text::split_of(line@, '|');
    assert(views == text::texts(columns@));
    if columns.len() < 3 {
        return None;
    }
    assert(views[0] == columns@[0]@);
    assert(views[2] == columns@[2]@);
    let id = trim(columns[0].as_str());
    let ip = trim(columns[2].as_str());
    if only_digits(id.as_str()) && looks_like_ipv4(ip.as_str()) {
        Some(JumpserverAssetRow { id, ip })
    } else {
        None
    }
}

/// The rows of the asset table in a text.
pub fn parse_asset_rows(s: &str) -> (r: Vec<JumpserverAssetRow>)
    requires
        output::ascii_escapes(s@),
    ensures
        row_views(r@) == asset_rows(s@),
{
    let clean = strip_ansi(s);
    let lines = split(clean.as_str(), '\n');
    let ghost views = text::texts(lines@);
    let mut rows: Vec<JumpserverAssetRow> = Vec::new();
    let mut i: usize = 0;
    assert(row_views(rows@) == rows_of(views.take(0)));
    while i < lines.len()
        invariant
            i <= lines.len(),
            views == text::texts(lines@),
            row_views(rows@) == rows_of(views.take(i as int)),
        decreases lines.len() - i,
    {
        assert(views.take(i + 1).drop_last() == views.take(i as int));
        assert(views.take(i + 1).last() == lines@[i as int]@);
        if let Some(row) = parse_row(lines[i].as_str()) {
            let ghost before = row_views(rows@);
            rows.push(row);
            assert(row_views(rows@) == before.push(row@));
        }
        i += 1;
    }
    assert(views.take(i as int) == views);
    rows
}

/// The ids of the rows with the given address.
pub open spec fn ids_for(rows: Seq<(Seq<char>, Seq<char>)>, ip: Seq<char>) -> Seq<Seq<char>>
    decreases rows.len(),
{
    if rows.len() == 0 {
        Seq::empty()
    } else if rows.last().1 == ip {
        ids_for(rows.drop_last(), ip).push(rows.last().0)
    } else {
        ids_for(rows.drop_last(), ip)
    }
}

/// The id of the one row with the given address, none if there is no such row, an
/// error if there are several.
pub open spec fn exact_asset_id(s: Seq<char>, ip: Seq<char>) -> Result<
    Option<Seq<char>>,
    Seq<char>,
> {
    let ids = ids_for(asset_rows(s), ip);
    if ids.len() == 0 {
        Ok(None)
    } else if ids.len() == 1 {
        Ok(Some(ids[0]))
    } else {
        Err(
            "jumpserver asset search for "@ + ip + " returned "@ + text::dec(ids.len() as int)
                + " exact matches"@,
        )
    }
}

/// The id of the asset with exactly the given address.
pub fn select_exact_asset_id(s: &str, ip: &str) -> (r: Result<Option<String>, String>)
    requires
        output::ascii_escapes(s@),
    ensures
        match r {
            Ok(id) => exact_asset_id(s@, ip@) == Ok::<Option<Seq<char>>, Seq<char>>(text::opt(id)),
            Err(e) => exact_asset_id(s@, ip@) == Err::<Option<Seq<char>>, Seq<char>>(e@),
        },
{
    let rows = parse_asset_rows(s);
    let ghost views = row_views(rows@);
    let mut ids: Vec<String> = Vec::new();
    let mut i: usize = 0;
    assert(text::texts(ids@) == ids_for(views.take(0), ip@));
    while i < rows.len()
        invariant
            i <= rows.len(),
            views == row_views(rows@),
            text::texts(ids@) == ids_for(views.take(i as int), ip@),
        decreases rows.len() - i,
    {
        assert(views.take(i + 1).drop_last() == views.take(i as int));
        assert(views.take(i + 1).last() == rows@[i as int]@);
        if same(rows[i].ip.as_str(), ip) {
            let ghost before = text::texts(ids@);
            ids.push(rows[i].id.clone());
            assert(text::texts(ids@) == before.push(rows@[i as int].id@));
        }
        i += 1;
    }
    assert(views.take(i as int) == views);
    if ids.len() == 0 {
        Ok(None)
    } else if ids.len() == 1 {
        assert(text::texts(ids@)[0] == ids@[0]@);
        Ok(Some(ids[0].clone()))
    } else {
        let count = decimal(ids.len() as u64);
        Err(
            text::concat5(
                "jumpserver asset search for ",
                ip,
                " returned ",
                count.as_str(),
                " exact matches",
            ),
        )
    }
}

// ---------------------------------------------------------------------------
// Pages and prompts
// ---------------------------------------------------------------------------
/// The first run of digits in `s`.
pub open spec fn first_digits(s: Seq<char>) -> Seq<char>
    decreases s.len(),
{
    if s.len() == 0 {
        s
    } else if text::is_digit(s[0]) {
        leading_digits(s)
    } else {
        first_digits(s.skip(1))
    }
}

/// The run of digits that `s` begins with.
pub open spec fn leading_digits(s: Seq<char>) -> Seq<char>
    decreases s.len(),
{
    if s.len() > 0 && text::is_digit(s[0]) {
        seq![s[0]] + leading_digits(s.skip(1))
    } else {
        Seq::empty()
    }
}

proof fn lemma_leading_digits(s: Seq<char>, n: int)
    requires
        0 <= n <= s.len(),
        forall|j: int| 0 <= j < n ==> text::is_digit(s[j]),
        n < s.len() ==> !text::is_digit(s[n]),
    ensures
        leading_digits(s) == s.take(n),
    decreases s.len(),
{
    if n > 0 {
        assert forall|j: int| 0 <= j < n - 1 implies text::is_digit(s.skip(1)[j]) by {
            assert(s.skip(1)[j] == s[j + 1]);
        }
        lemma_leading_digits(s.skip(1), n - 1);
        assert(s.take(n) == seq![s[0]] + s.skip(1).take(n - 1));
    } else {
        assert(s.take(n) == Seq::<char>::empty());
    }
}

/// The first number behind the first occurrence of `label`, if a `u32` holds it.
pub open spec fn number_behind(s: Seq<char>, label: Seq<char>) -> Option<int> {
    match search::find(s, label) {
        None => None,
        Some(k) => {
            let d = first_digits(s.skip(k + label.len()));
            if d.len() == 0 || text::digits_value(d) > u32::MAX {
                None
            } else {
                Some(text::digits_value(d))
            }
        },
    }
}

fn read_number_behind(v: &[char], label: &str) -> (r: Option<u32>)
    ensures
        r is Some <==> number_behind(v@, label@) is Some,
        r matches Some(n) ==> number_behind(v@, label@) == Some(n as int),
{
    let l = to_chars(label);
    match find_chars(v, l.as_slice()) {
        None => None,
        Some(k) => {
            let rest = vstd::slice::slice_subrange(v, k + l.len(), v.len());
            assert(rest@ == v@.skip(k + label@.len()));
            let mut i: usize = 0;
            assert(rest@.skip(0) == rest@);
            while i < rest.len() && !digit(rest[i])
                invariant
                    i <= rest.len(),
                    first_digits(rest@) == first_digits(rest@.skip(i as int)),
                decreases rest.len() - i,
            {
                assert(rest@.skip(i as int).skip(1) == rest@.skip(i + 1));
                i += 1;
            }
            let mut j: usize = i;
            while j < rest.len() && digit(rest[j])
                invariant
                    i <= j <= rest.len(),
                    forall|q: int| i <= q < j ==> text::is_digit(#[trigger] rest@[q]),
                decreases rest.len() - j,
            {
                j += 1;
            }
            let run = vstd::slice::slice_subrange(rest, i, j);
            proof {
                let tail = rest@.skip(i as int);
                assert(run@ == tail.take(j - i));
                assert forall|q: int| 0 <= q < j - i implies text::is_digit(tail[q]) by {
                    assert(tail[q] == rest@[i + q]);
                }
                if j < rest.len() {
                    assert(tail[j - i] == rest@[j as int]);
                }
                lemma_leading_digits(tail, j - i);
                if i < rest.len() {
                    assert(tail[0] == rest@[i as int]);
                } else {
                    assert(run@ == tail);
                }
                assert(first_digits(rest@) == run@);
                assert forall|q: int| 0 <= q < run@.len() implies text::is_digit(
                    #[trigger] run@[q],
                ) by {
                    assert(run@[q] == rest@[i + q]);
                }
            }
            match digits(run, 0xffff_ffff) {
                Some(n) => Some(n as u32),
                None => None,
            }
        },
    }
}

/// The page status in a text: the numbers behind the labels of page and page count.
pub open spec fn page_status(s: Seq<char>) -> Option<(int, int)> {
    let clean = output::ansi_free(s);
    match (number_behind(clean, "页码："@), number_behind(clean, "总页数："@)) {
        (Some(current), Some(total)) => Some((current, total)),
        _ => None,
    }
}

/// The page status that a paginated table shows.
pub fn parse_page_status(s: &str) -> (r: Option<PageStatus>)
    requires
        output::ascii_escapes(s@),
    ensures
        match r {
            Some(p) => page_status(s@) == Some((p.current as int, p.total as int)),
            None => page_status(s@) is None,
        },
{
    let clean = strip_ansi(s);
    let v = to_chars(clean.as_str());
    match read_number_behind(v.as_slice(), "页码：") {
        None => None,
        Some(current) => match read_number_behind(v.as_slice(), "总页数：") {
            None => None,
            Some(total) => Some(PageStatus { current, total }),
        },
    }
}

/// The menu prompt stands in the text.
pub open spec fn at_menu(s: Seq<char>) -> bool {
    text::holds(output::ansi_free(s), "Opt"@)
}

pub fn contains_menu_prompt(s: &str) -> (r: bool)
    requires
        output::ascii_escapes(s@),
    ensures
        r == at_menu(s@),
{
    let clean = strip_ansi(s);
    contains(clean.as_str(), "Opt")
}

/// The request for a second factor stands in the text.
pub open spec fn at_mfa(s: Seq<char>) -> bool {
    text::holds(output::ansi_free(s), "MFA"@)
}

pub fn contains_mfa_prompt(s: &str) -> (r: bool)
    requires
        output::ascii_escapes(s@),
    ensures
        r == at_mfa(s@),
{
    let clean = strip_ansi(s);
    contains(clean.as_str(), "MFA")
}

/// The text offers a previous page and ends with a colon.
pub open spec fn at_page(s: Seq<char>) -> bool {
    let clean = output::ansi_free(s);
    text::holds(clean, "上一页"@) && text::ends(text::trim_end_of(clean), ":"@)
}

pub fn contains_page_prompt(s: &str) -> (r: bool)
    requires
        output::ascii_escapes(s@),
    ensures
        r == at_page(s@),
{
    let clean = strip_ansi(s);
    contains(clean.as_str(), "上一页") && trimmed_ends_with(clean.as_str(), ":")
}

// ---------------------------------------------------------------------------
// What a table shows
// ---------------------------------------------------------------------------
/// Nothing but white space.
pub open spec fn blank(s: Seq<char>) -> bool {
    forall|i: int| 0 <= i < s.len() ==> text::is_white(#[trigger] s[i])
}

/// A line of the table shows an asset's number in its first column and its address in its
/// third, with blanks around them, whatever the other columns show.
pub proof fn law_table_line_shows_its_asset(
    pads: Seq<Seq<char>>,
    id: Seq<char>,
    name: Seq<char>,
    numbers: Seq<Seq<char>>,
    more: Seq<char>,
)
    requires
        pads.len() == 4,
        forall|i: int| 0 <= i < 4 ==> blank(#[trigger] pads[i]) && !pads[i].contains('|'),
        id.len() > 0,
        text::all_digits(id),
        !name.contains('|'),
        numbers.len() == 4,
        forall|i: int|
            0 <= i < 4 ==> (#[trigger] numbers[i]).len() > 0 && text::all_digits(numbers[i]),
    ensures
        ({
            let bar = seq!['|'];
            let dot = seq!['.'];
            let ip = numbers[0] + dot + numbers[1] + dot + numbers[2] + dot + numbers[3];
            let line = pads[0] + id + pads[1] + bar + name + bar + (pads[2] + ip + pads[3]);
            &&& is_ipv4(ip)
            &&& row_of(line) == Some((id, ip))
            &&& row_of(line + bar + more) == Some((id, ip))
        }),
{
    let bar = seq!['|'];
    let dot = seq!['.'];
    let n = numbers;
    let ip = n[0] + dot + n[1] + dot + n[2] + dot + n[3];
    let first = pads[0] + id + pads[1];
    let third = pads[2] + ip + pads[3];
    assert forall|i: int| 0 <= i < 4 implies !(#[trigger] n[i]).contains('.') && !n[i].contains(
        '|',
    ) by {
        lemma_only_digits(n[i]);
    }
    lemma_only_digits(id);
    text::lemma_split_none(n[0], '.');
    text::lemma_split_last(n[0], n[1], '.');
    text::lemma_split_last(n[0] + dot + n[1], n[2], '.');
    text::lemma_split_last(n[0] + dot + n[1] + dot + n[2], n[3], '.');
    assert(text::split_of(ip, '.') =~= seq![n[0], n[1], n[2], n[3]]);
    assert forall|i: int| 0 <= i < 4 implies (#[trigger] text::split_of(ip, '.')[i]).len() > 0
        && text::all_digits(text::split_of(ip, '.')[i]) by {
        assert(text::split_of(ip, '.')[i] == n[i]);
    }
    lemma_digits_not_white(id);
    assert(ip[0] == n[0][0]);
    assert(ip.last() == n[3].last());
    lemma_digits_not_white(n[0]);
    lemma_digits_not_white(n[3]);
    text::law_trimming_removes_the_white_space_around(pads[0], id, pads[1]);
    text::law_trimming_removes_the_white_space_around(pads[2], ip, pads[3]);
    lemma_sum_contains(pads[0], id, '|');
    lemma_sum_contains(pads[0] + id, pads[1], '|');
    lemma_sum_contains(n[0], dot, '|');
    lemma_sum_contains(n[0] + dot, n[1], '|');
    lemma_sum_contains(n[0] + dot + n[1], dot, '|');
    lemma_sum_contains(n[0] + dot + n[1] + dot, n[2], '|');
    lemma_sum_contains(n[0] + dot + n[1] + dot + n[2], dot, '|');
    lemma_sum_contains(n[0] + dot + n[1] + dot + n[2] + dot, n[3], '|');
    lemma_sum_contains(pads[2], ip, '|');
    lemma_sum_contains(pads[2] + ip, pads[3], '|');
    text::lemma_split_none(first, '|');
    text::lemma_split_last(first, name, '|');
    text::lemma_split_last(first + bar + name, third, '|');
    let line = first + bar + name + bar + third;
    let columns = text::split_of(line, '|');
    assert(columns =~= seq![first, name, third]);
    let rest = third + bar + more;
    assert(line + bar + more =~= first + bar + (name + bar + rest));
    text::lemma_split_first(first, name + bar + rest, '|');
    text::lemma_split_first(name, rest, '|');
    text::lemma_split_first(third, more, '|');
    let all = text::split_of(line + bar + more, '|');
    assert(all[0] == first);
    assert(all[2] == third);
}

proof fn lemma_only_digits(s: Seq<char>)
    requires
        text::all_digits(s),
    ensures
        !s.contains('|'),
        !s.contains('.'),
{
    if s.contains('|') {
        let i = choose|i: int| 0 <= i < s.len() && s[i] == '|';
        assert(text::is_digit(s[i]));
    }
    if s.contains('.') {
        let i = choose|i: int| 0 <= i < s.len() && s[i] == '.';
        assert(text::is_digit(s[i]));
    }
}

proof fn lemma_digits_not_white(s: Seq<char>)
    requires
        s.len() > 0,
        text::all_digits(s),
    ensures
        !text::is_white(s[0]),
        !text::is_white(s.last()),
{
    assert(text::is_digit(s[0]));
    assert(text::is_digit(s[s.len() - 1]));
}

proof fn lemma_sum_contains(a: Seq<char>, b: Seq<char>, c: char)
    requires
        !a.contains(c),
        !b.contains(c),
    ensures
        !(a + b).contains(c),
{
    if (a + b).contains(c) {
        let i = choose|i: int| 0 <= i < (a + b).len() && (a + b)[i] == c;
        if i < a.len() {
            assert(a[i] == c);
        } else {
            assert(b[i - a.len()] == c);
        }
    }
}

/// An address is selected exactly where one line of the table shows it; two are an error.
pub proof fn law_one_line_is_selected(s: Seq<char>, ip: Seq<char>)
    ensures
        ({
            let rows = asset_rows(s);
            let shows = |i: int| 0 <= i < rows.len() && rows[i].1 == ip;
            match exact_asset_id(s, ip) {
                Ok(Some(id)) => exists|i: int| #[trigger]
                    shows(i) && rows[i].0 == id && forall|j: int| #[trigger] shows(j) ==> j == i,
                Ok(None) => forall|i: int| !#[trigger] shows(i),
                Err(_) => exists|i: int, j: int| i != j && #[trigger] shows(i) && #[trigger] shows(
                    j,
                ),
            }
        }),
{
    let rows = asset_rows(s);
    let at = lemma_ids_for(rows, ip);
    let ids = ids_for(rows, ip);
    let shows = |i: int| 0 <= i < rows.len() && rows[i].1 == ip;
    if ids.len() == 1 {
        assert(shows(at[0]));
        assert forall|j: int| #[trigger] shows(j) implies j == at[0] by {
            let k = choose|k: int| 0 <= k < at.len() && at[k] == j;
        }
    } else if ids.len() > 1 {
        assert(shows(at[0]) && shows(at[1]) && at[0] < at[1]);
    } else {
        assert forall|i: int| !#[trigger] shows(i) by {
            if shows(i) {
                let k = choose|k: int| 0 <= k < at.len() && at[k] == i;
            }
        }
    }
}

proof fn lemma_ids_for(rows: Seq<(Seq<char>, Seq<char>)>, ip: Seq<char>) -> (at: Seq<int>)
    ensures
        at.len() == ids_for(rows, ip).len(),
        forall|k: int|
            0 <= k < at.len() ==> 0 <= #[trigger] at[k] < rows.len() && rows[at[k]].1 == ip
                && rows[at[k]].0 == ids_for(rows, ip)[k],
        forall|k: int, l: int| 0 <= k < l < at.len() ==> #[trigger] at[k] < #[trigger] at[l],
        forall|i: int| 0 <= i < rows.len() && (#[trigger] rows[i]).1 == ip ==> at.contains(i),
    decreases rows.len(),
{
    if rows.len() == 0 {
        Seq::empty()
    } else {
        let before = lemma_ids_for(rows.drop_last(), ip);
        let n = rows.len() - 1;
        let at = if rows.last().1 == ip {
            before.push(n)
        } else {
            before
        };
        assert forall|i: int| 0 <= i < rows.len() && (
        #[trigger] rows[i]).1 == ip implies at.contains(i) by {
            if i < n {
                assert(rows.drop_last()[i] == rows[i]);
                let k = choose|k: int| 0 <= k < before.len() && before[k] == i;
                assert(at[k] == i);
            } else {
                assert(at[at.len() - 1] == i);
            }
        }
        at
    }
}

/// Each line of a table that shows an asset is a row, in order, and no other line is.
pub proof fn law_every_line_is_read(lines: Seq<Seq<char>>)
    ensures
        rows_of(lines) == lists::picked(lines, |line: Seq<char>| row_of(line)),
    decreases lines.len(),
{
    if lines.len() > 0 {
        law_every_line_is_read(lines.drop_last());
        assert(rows_of(lines) =~= lists::picked(lines, |line: Seq<char>| row_of(line)));
    }
}

/// The number behind a label is read, whatever else stands around it.
pub proof fn law_labelled_number_is_read(
    before: Seq<char>,
    label: Seq<char>,
    gap: Seq<char>,
    n: int,
    behind: Seq<char>,
)
    requires
        0 <= n <= u32::MAX,
        forall|i: int| 0 <= i < gap.len() ==> !text::is_digit(#[trigger] gap[i]),
        behind.len() > 0 ==> !text::is_digit(behind[0]),
        search::find(before + label + gap + text::dec(n) + behind, label) == Some(
            before.len() as int,
        ),
    ensures
        number_behind(before + label + gap + text::dec(n) + behind, label) == Some(n),
{
    let s = before + label + gap + text::dec(n) + behind;
    let tail = s.skip(before.len() as int + label.len());
    assert(tail =~= gap + text::dec(n) + behind);
    text::lemma_decimal_reads_back(n);
    lemma_first_digits(gap, text::dec(n), behind);
}

proof fn lemma_first_digits(gap: Seq<char>, digits: Seq<char>, behind: Seq<char>)
    requires
        forall|i: int| 0 <= i < gap.len() ==> !text::is_digit(#[trigger] gap[i]),
        digits.len() > 0,
        text::all_digits(digits),
        behind.len() > 0 ==> !text::is_digit(behind[0]),
    ensures
        first_digits(gap + digits + behind) == digits,
    decreases gap.len(),
{
    let s = gap + digits + behind;
    if gap.len() == 0 {
        assert(s =~= digits + behind);
        assert(text::is_digit(digits[0]));
        assert forall|j: int| 0 <= j < digits.len() implies text::is_digit(s[j]) by {
            assert(s[j] == digits[j]);
        }
        lemma_leading_digits(s, digits.len() as int);
        assert(s.take(digits.len() as int) =~= digits);
    } else {
        assert(s[0] == gap[0]);
        assert(s.skip(1) =~= gap.skip(1) + digits + behind);
        assert forall|i: int| 0 <= i < gap.skip(1).len() implies !text::is_digit(
            #[trigger] gap.skip(1)[i],
        ) by {
            assert(gap.skip(1)[i] == gap[i + 1]);
        }
        lemma_first_digits(gap.skip(1), digits, behind);
    }
}

/// An address is four numbers with dots between them, and nothing else is one.
pub proof fn law_addresses_are_four_numbers(parts: Seq<Seq<char>>)
    requires
        parts.len() > 0,
        forall|i: int| 0 <= i < parts.len() ==> !(#[trigger] parts[i]).contains('.'),
    ensures
        is_ipv4(text::join_of(parts, seq!['.'])) == (parts.len() == 4 && forall|i: int|
            0 <= i < 4 ==> (#[trigger] parts[i]).len() > 0 && text::all_digits(parts[i])),
{
    lemma_join_splits(parts);
    let s = text::join_of(parts, seq!['.']);
    assert(text::split_of(s, '.') == parts);
    if parts.len() == 4 {
        assert(text::split_of(s, '.')[0] == parts[0]);
        assert(text::split_of(s, '.')[1] == parts[1]);
        assert(text::split_of(s, '.')[2] == parts[2]);
        assert(text::split_of(s, '.')[3] == parts[3]);
    }
}

proof fn lemma_join_splits(parts: Seq<Seq<char>>)
    requires
        parts.len() > 0,
        forall|i: int| 0 <= i < parts.len() ==> !(#[trigger] parts[i]).contains('.'),
    ensures
        text::split_of(text::join_of(parts, seq!['.']), '.') == parts,
    decreases parts.len(),
{
    if parts.len() == 1 {
        text::lemma_split_none(parts[0], '.');
        assert(text::split_of(parts[0], '.') =~= parts);
    } else {
        let init = parts.drop_last();
        assert forall|i: int| 0 <= i < init.len() implies !(#[trigger] init[i]).contains('.') by {
            assert(init[i] == parts[i]);
        }
        lemma_join_splits(init);
        assert(!parts[parts.len() - 1].contains('.'));
        text::lemma_split_last(text::join_of(init, seq!['.']), parts.last(), '.');
        assert(init.push(parts.last()) =~= parts);
    }
}

/// A list that is shown page by page waits at a colon, and names the page before.
pub proof fn law_pages_end_at_a_colon(before: Seq<char>, middle: Seq<char>, blanks: Seq<char>)
    requires
        blank(blanks),
        output::ansi_free(before + "上一页"@ + middle + seq![':'] + blanks) == before + "上一页"@
            + middle + seq![':'] + blanks,
    ensures
        at_page(before + "上一页"@ + middle + seq![':'] + blanks),
{
    let line = before + "上一页"@ + middle + seq![':'];
    let s = line + blanks;
    reveal_strlit(":");
    assert(":"@ =~= seq![':']);
    text::lemma_trim_end_padded(line, blanks);
    text::law_beginnings_and_ends(before + "上一页"@ + middle, seq![':'], line);
    text::law_beginnings_and_ends(before, middle + seq![':'] + blanks, "上一页"@);
    assert(before + "上一页"@ + (middle + seq![':'] + blanks) =~= s);
}

/// The page that is shown and the number of pages are read behind their labels.
pub proof fn law_pages_are_counted(s: Seq<char>, current: int, total: int)
    requires
        number_behind(output::ansi_free(s), "页码："@) == Some(current),
        number_behind(output::ansi_free(s), "总页数："@) == Some(total),
    ensures
        page_status(s) == Some((current, total)),
{
}

} // verus!
