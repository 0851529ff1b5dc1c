//! The report as a table: its heading, the record of a row, and the key by
//! which rows are ordered.

use crate::order::{insertion_point, keys_view, names_sorted, sort_names, sorted, Key};
use crate::report::{reports_view, Report, ReportView};
use crate::text::{append, str_eq, strings_view};
use vstd::prelude::*;

verus! {

/// The decimal digit of a number below ten.
pub open spec fn digit(d: nat) -> char {
    if d == 0 {
        '0'
    } else if d == 1 {
        '1'
    } else if d == 2 {
        '2'
    } else if d == 3 {
        '3'
    } else if d == 4 {
        '4'
    } else if d == 5 {
        '5'
    } else if d == 6 {
        '6'
    } else if d == 7 {
        '7'
    } else if d == 8 {
        '8'
    } else {
        '9'
    }
}

/// The decimal digits of a natural number, without leading zeros.
pub open spec fn digits(n: nat) -> Seq<char>
    decreases n,
{
    if n < 10 {
        seq![digit(n)]
    } else {
        digits(n / 10).push(digit(n % 10))
    }
}

/// A whole number in decimal notation.
pub open spec fn decimal(n: int) -> Seq<char> {
    if n < 0 {
        seq!['-'] + digits((-n) as nat)
    } else {
        digits(n as nat)
    }
}

fn digit_str(d: u64) -> (r: &'static str)
    requires
        d < 10,
    ensures
        r@ == seq![digit(d as nat)],
{
    proof {
        reveal_strlit("0");
        reveal_strlit("1");
        reveal_strlit("2");
        reveal_strlit("3");
        reveal_strlit("4");
        reveal_strlit("5");
        reveal_strlit("6");
        reveal_strlit("7");
        reveal_strlit("8");
        reveal_strlit("9");
    }
    let r = if d == 0 {
        "0"
    } else if d == 1 {
        "1"
    } else if d == 2 {
        "2"
    } else if d == 3 {
        "3"
    } else if d == 4 {
        "4"
    } else if d == 5 {
        "5"
    } else if d == 6 {
        "6"
    } else if d == 7 {
        "7"
    } else if d == 8 {
        "8"
    } else {
        "9"
    };
    assert(r@ =~= seq![digit(d as nat)]);
    r
}

fn digits_string(n: u64) -> (r: String)
    ensures
        r@ == digits(n as nat),
    decreases n,
{
    if n < 10 {
        String::from_str(digit_str(n))
    } else {
        let head = digits_string(n / 10);
        let r = append(head.as_str(), digit_str(n % 10));
        assert(r@ == digits((n / 10) as nat).push(digit((n % 10) as nat)));
        r
    }
}

/// `n` in decimal notation.
pub fn decimal_string(n: i32) -> (r: String)
    ensures
        r@ == decimal(n as int),
{
    if n < 0 {
        let magnitude: u64 = (0 - (n as i64)) as u64;
        let tail = digits_string(magnitude);
        proof {
            reveal_strlit("-");
            assert("-"@ =~= seq!['-']);
        }
        append("-", tail.as_str())
    } else {
        digits_string(n as u64)
    }
}

/// The names of the columns that every report has.
pub open spec fn fixed_heading() -> Seq<Seq<char>> {
    seq![
        "Subscription"@,
        "Title"@,
        "Plan"@,
        "Storage"@,
        "Region"@,
        "Last Backup at"@,
        "Type"@,
        "App"@,
    ]
}

/// The heading of a report: the fixed columns, then one column for each
/// service engine, then one for each tracked name.
pub fn heading(service_cols: &Vec<String>, package_cols: &Vec<String>) -> (r: Vec<String>)
    ensures
        strings_view(r@) == fixed_heading() + strings_view(service_cols@) + strings_view(package_cols@),
{
    let mut r: Vec<String> = Vec::new();
    r.push(String::from_str("Subscription"));
    r.push(String::from_str("Title"));
    r.push(String::from_str("Plan"));
    r.push(String::from_str("Storage"));
    r.push(String::from_str("Region"));
    r.push(String::from_str("Last Backup at"));
    r.push(String::from_str("Type"));
    r.push(String::from_str("App"));
    assert(strings_view(r@) == fixed_heading());
    copy_all(&mut r, service_cols);
    copy_all(&mut r, package_cols);
    r
}

/// Adds copies of the strings of `more` to `out`.
fn copy_all(out: &mut Vec<String>, more: &Vec<String>)
    ensures
        strings_view(final(out)@) == strings_view(old(out)@) + strings_view(more@),
{
    let mut i: usize = 0;
    assert(strings_view(more@).take(0) == Seq::<Seq<char>>::empty());
    assert(strings_view(out@) + Seq::<Seq<char>>::empty() == strings_view(out@));
    while i < more.len()
        invariant
            i <= more.len(),
            strings_view(out@) == strings_view(old(out)@) + strings_view(more@).take(i as int),
        decreases more.len() - i,
    {
        let ghost before = strings_view(out@);
        out.push(more[i].clone());
        proof {
            assert(strings_view(out@) == before.push(more[i as int]@));
            assert(strings_view(more@).take(i + 1) == strings_view(more@).take(i as int).push(more[i as int]@));
        }
        i += 1;
    }
    assert(strings_view(more@).take(more.len() as int) == strings_view(more@));
}

/// What a map holds in a column: the value under the column's name, or
/// nothing.
pub open spec fn cell(values: Map<Seq<char>, Seq<char>>, column: Seq<char>) -> Seq<char> {
    if values.contains_key(column) {
        values[column]
    } else {
        Seq::empty()
    }
}

/// The cells of a map in the given columns.
pub open spec fn cells(values: Map<Seq<char>, Seq<char>>, columns: Seq<Seq<char>>) -> Seq<Seq<char>> {
    columns.map_values(|column: Seq<char>| cell(values, column))
}

/// The fixed cells of a row. A time that is missing is an empty cell.
pub open spec fn fixed_cells(row: ReportView) -> Seq<Seq<char>> {
    seq![
        row.subscription,
        row.title,
        row.plan,
        decimal(row.storage as int),
        row.region,
        match row.last_backup_at {
            Some(at) => at,
            None => Seq::empty(),
        },
        row.a_type,
        row.app,
    ]
}

/// The record of a row: its fixed cells, then the version of each service
/// engine, then the version of each tracked name. A version that the row
/// lacks is an empty cell.
pub fn record(row: &Report, service_cols: &Vec<String>, package_cols: &Vec<String>) -> (r: Vec<String>)
    ensures
        strings_view(r@) == fixed_cells(row@) + cells(row@.services, strings_view(service_cols@)) + cells(
            row@.packages,
            strings_view(package_cols@),
        ),
{
    let mut r: Vec<String> = Vec::new();
    r.push(row.subscription.clone());
    r.push(row.title.clone());
    r.push(row.plan.clone());
    r.push(decimal_string(row.storage));
    r.push(row.region.clone());
    r.push(
        match &row.last_backup_at {
            Some(at) => at.clone(),
            None => String::new(),
        },
    );
    r.push(row.a_type.clone());
    r.push(row.app.clone());
    assert(strings_view(r@) == fixed_cells(row@));
    let ghost fixed = strings_view(r@);
    let mut i: usize = 0;
    let ghost services = cells(row@.services, strings_view(service_cols@));
    assert(fixed + services.take(0) == fixed);
    while i < service_cols.len()
        invariant
            i <= service_cols.len(),
            services == cells(row@.services, strings_view(service_cols@)),
            strings_view(r@) == fixed + services.take(i as int),
        decreases service_cols.len() - i,
    {
        let ghost before = strings_view(r@);
        let value = match row.services.get(service_cols[i].as_str()) {
            Some(version) => version.clone(),
            None => String::new(),
        };
        r.push(value);
        proof {
            assert(strings_view(r@) == before.push(value@));
            assert(services.take(i + 1) == services.take(i as int).push(services[i as int]));
        }
        i += 1;
    }
    assert(services.take(service_cols.len() as int) == services);
    let ghost middle = strings_view(r@);
    let mut j: usize = 0;
    let ghost packages = cells(row@.packages, strings_view(package_cols@));
    assert(middle + packages.take(0) == middle);
    while j < package_cols.len()
        invariant
            j <= package_cols.len(),
            packages == cells(row@.packages, strings_view(package_cols@)),
            strings_view(r@) == middle + packages.take(j as int),
        decreases package_cols.len() - j,
    {
        let ghost before = strings_view(r@);
        let value = match row.packages.get(package_cols[j].as_str()) {
            Some(version) => version.clone(),
            None => String::new(),
        };
        r.push(value);
        proof {
            assert(strings_view(r@) == before.push(value@));
            assert(packages.take(j + 1) == packages.take(j as int).push(packages[j as int]));
        }
        j += 1;
    }
    assert(packages.take(package_cols.len() as int) == packages);
    r
}

/// The lower-case form of a text, as `str::to_lowercase` gives it.
pub uninterp spec fn lowercased(text: Seq<char>) -> Seq<char>;

/// Calls `str::to_lowercase`.
///
/// The contract claims only that the outcome is a function of the text.
#[verifier::external_body]
fn lowercase(text: &str) -> (r: String)
    ensures
        r@ == lowercased(text@),
{
    text.to_lowercase()
}

/// The key by which rows are ordered: first the title of the project
/// without regard to case, then the name of the application.
pub fn sort_key(row: &Report) -> (r: (String, String))
    ensures
        r.0@ == lowercased(row.title@),
        r.1@ == row.app@,
{
    (lowercase(row.title.as_str()), row.app.clone())
}

/// The names that occur in a list, each once, in the order in which they
/// first occur.
pub open spec fn distinct(names: Seq<Seq<char>>) -> Seq<Seq<char>>
    decreases names.len(),
{
    if names.len() == 0 {
        Seq::empty()
    } else {
        let before = distinct(names.drop_last());
        if before.contains(names.last()) {
            before
        } else {
            before.push(names.last())
        }
    }
}

/// The distinct names of a list are the names of the list, and none of them
/// occurs twice.
pub proof fn lemma_distinct(names: Seq<Seq<char>>)
    ensures
        distinct(names).no_duplicates(),
        forall|name: Seq<char>| distinct(names).contains(name) <==> names.contains(name),
    decreases names.len(),
{
    if names.len() > 0 {
        let front = names.drop_last();
        let before = distinct(front);
        let after = distinct(names);
        lemma_distinct(front);
        assert forall|name: Seq<char>| after.contains(name) <==> names.contains(name) by {
            if names.contains(name) {
                let k = choose|k: int| 0 <= k < names.len() && names[k] == name;
                if k < front.len() {
                    assert(front[k] == name);
                    assert(front.contains(name));
                    assert(before.contains(name));
                    let j = choose|j: int| 0 <= j < before.len() && before[j] == name;
                    assert(after[j] == name);
                } else if !before.contains(name) {
                    assert(after[before.len() as int] == name);
                }
            }
            if after.contains(name) {
                let j = choose|j: int| 0 <= j < after.len() && after[j] == name;
                if j < before.len() {
                    assert(before[j] == name);
                    assert(before.contains(name));
                    assert(front.contains(name));
                    let k = choose|k: int| 0 <= k < front.len() && front[k] == name;
                    assert(names[k] == name);
                } else {
                    assert(names[names.len() - 1] == name);
                }
            }
        }
    }
}

/// The engines that get a column: those that occur among `engines`, each
/// once, in the order in which they first occur.
pub fn engine_columns(engines: &Vec<String>) -> (r: Vec<String>)
    ensures
        strings_view(r@) == distinct(strings_view(engines@)),
{
    let mut out: Vec<String> = Vec::new();
    let mut i: usize = 0;
    let ghost all = strings_view(engines@);
    assert(all.take(0) == Seq::<Seq<char>>::empty());
    while i < engines.len()
        invariant
            i <= engines.len(),
            all == strings_view(engines@),
            strings_view(out@) == distinct(all.take(i as int)),
        decreases engines.len() - i,
    {
        let ghost before = strings_view(out@);
        proof {
            assert(all.take(i + 1).drop_last() == all.take(i as int));
            assert(all.take(i + 1).last() == all[i as int]);
        }
        if !listed(&out, engines[i].as_str()) {
            out.push(engines[i].clone());
            assert(strings_view(out@) == before.push(all[i as int]));
        }
        i += 1;
    }
    assert(all.take(engines.len() as int) == all);
    out
}

/// Whether `name` is among `names`.
fn listed(names: &Vec<String>, name: &str) -> (r: bool)
    ensures
        r == strings_view(names@).contains(name@),
{
    let mut i: usize = 0;
    while i < names.len()
        invariant
            i <= names.len(),
            forall|k: int| 0 <= k < i ==> strings_view(names@)[k] != name@,
        decreases names.len() - i,
    {
        if str_eq(names[i].as_str(), name) {
            assert(strings_view(names@)[i as int] == name@);
            return true;
        }
        i += 1;
    }
    false
}

/// The key by which a row is ordered.
pub open spec fn row_key(row: ReportView) -> Key {
    (lowercased(row.title), row.app)
}

/// The keys of some rows.
pub open spec fn row_keys(rows: Seq<ReportView>) -> Seq<Key> {
    rows.map_values(|row: ReportView| row_key(row))
}

/// The rows in the order of the report: the same rows, as often as before,
/// by the title of the project without regard to case, and between equal
/// titles by the name of the application.
pub fn sort_rows(rows: Vec<Report>) -> (r: Vec<Report>)
    ensures
        reports_view(r@).to_multiset() == reports_view(rows@).to_multiset(),
        sorted(row_keys(reports_view(r@))),
{
    let mut rest = rows;
    let mut out: Vec<Report> = Vec::new();
    let mut keys: Vec<(String, String)> = Vec::new();
    assert(reports_view(out@) == Seq::<ReportView>::empty());
    assert(keys_view(keys@) == row_keys(reports_view(out@)));
    proof {
        vstd::seq_lib::to_multiset_len(reports_view(out@));
        assert(reports_view(out@).to_multiset() =~= vstd::multiset::Multiset::empty());
        assert(reports_view(out@).to_multiset().add(reports_view(rest@).to_multiset()) =~= reports_view(
            rows@,
        ).to_multiset());
    }
    while rest.len() > 0
        invariant
            keys_view(keys@) == row_keys(reports_view(out@)),
            sorted(keys_view(keys@)),
            reports_view(out@).to_multiset().add(reports_view(rest@).to_multiset()) == reports_view(
                rows@,
            ).to_multiset(),
        decreases rest.len(),
    {
        let ghost waiting = reports_view(rest@);
        let ghost placed = reports_view(out@);
        let ghost keys_before = keys_view(keys@);
        let row = rest.remove(0);
        let key = sort_key(&row);
        let j = insertion_point(&keys, &key);
        proof {
            assert(keys_before.len() == placed.len());
            assert(reports_view(rest@) == waiting.remove(0));
            vstd::seq_lib::to_multiset_remove(waiting, 0);
            vstd::seq_lib::to_multiset_insert(placed, j as int, row@);
            vstd::seq_lib::to_multiset_contains(waiting, row@);
            assert(waiting[0] == row@);
            assert(waiting.contains(row@));
        }
        keys.insert(j, key);
        out.insert(j, row);
        proof {
            assert(reports_view(out@) == placed.insert(j as int, row@));
            assert(keys_view(keys@) == keys_before.insert(j as int, row_key(row@)));
            assert(keys_view(keys@) == row_keys(reports_view(out@)));
            assert(reports_view(out@).to_multiset().add(reports_view(rest@).to_multiset()) =~= placed.to_multiset().add(
                waiting.to_multiset(),
            ));
        }
    }
    proof {
        assert(reports_view(rest@) == Seq::<ReportView>::empty());
        vstd::seq_lib::to_multiset_len(reports_view(rest@));
        assert(reports_view(rest@).to_multiset() =~= vstd::multiset::Multiset::empty());
        assert(reports_view(out@).to_multiset().add(reports_view(rest@).to_multiset()) =~= reports_view(
            out@,
        ).to_multiset());
    }
    out
}

/// The columns of the service engines: the engines that occur among
/// `engines`, each once, in order.
pub fn service_columns(engines: &Vec<String>) -> (r: Vec<String>)
    ensures
        names_sorted(strings_view(r@)),
        strings_view(r@).no_duplicates(),
        forall|name: Seq<char>| strings_view(r@).contains(name) <==> strings_view(engines@).contains(name),
{
    let once = engine_columns(engines);
    let r = sort_names(&once);
    proof {
        let before = strings_view(once@);
        let after = strings_view(r@);
        lemma_distinct(strings_view(engines@));
        before.lemma_multiset_has_no_duplicates();
        after.lemma_multiset_has_no_duplicates_conv();
        assert forall|name: Seq<char>| after.contains(name) <==> strings_view(engines@).contains(name) by {
            vstd::seq_lib::to_multiset_contains(after, name);
            vstd::seq_lib::to_multiset_contains(before, name);
        }
    }
    r
}

} // verus!
