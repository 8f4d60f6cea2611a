use vstd::prelude::*;

use crate::api_tester::ApiTester;

verus! {

/// One path variable of the URL and the value typed for it.
#[derive(Debug, PartialEq, Eq)]
pub struct PathVariableRow {
    pub name: String,
    pub value: String,
}

impl View for PathVariableRow {
    type V = (Seq<char>, Seq<char>);

    open spec fn view(&self) -> (Seq<char>, Seq<char>) {
        (self.name@, self.value@)
    }
}

/// The contents of path variable rows.
pub open spec fn path_rows_view(rows: Seq<PathVariableRow>) -> Seq<(Seq<char>, Seq<char>)> {
    rows.map_values(|r: PathVariableRow| r@)
}

/// The position of the last row with this name, or -1.
pub open spec fn last_named(rows: Seq<(Seq<char>, Seq<char>)>, name: Seq<char>) -> int
    decreases rows.len(),
{
    if rows.len() == 0 {
        -1
    } else if rows.last().0 == name {
        rows.len() - 1
    } else {
        last_named(rows.drop_last(), name)
    }
}

/// The name first appears in the URL at this position.
pub open spec fn first_time(names: Seq<Seq<char>>, i: int) -> bool {
    forall|j: int| 0 <= j < i ==> names[j] != names[i]
}

/// The value a new row for a name starts with: the last one given for it,
/// or nothing.
pub open spec fn given_value(values: Seq<(Seq<char>, Seq<char>)>, name: Seq<char>) -> Seq<char> {
    let k = last_named(values, name);
    if k < 0 {
        Seq::empty()
    } else {
        values[k].1
    }
}

/// The rows for the names of a URL: a name seen for the first time keeps the
/// row it had (the last one with that name); any other name gets a new row
/// with its given value.
pub open spec fn reconciled_rows(
    rows: Seq<(Seq<char>, Seq<char>)>,
    names: Seq<Seq<char>>,
    values: Seq<(Seq<char>, Seq<char>)>,
) -> Seq<(Seq<char>, Seq<char>)> {
    Seq::new(
        names.len(),
        |i: int|
            if first_time(names, i) && last_named(rows, names[i]) >= 0 {
                rows[last_named(rows, names[i])]
            } else {
                (names[i], given_value(values, names[i]))
            },
    )
}

fn find_last(rows: &Vec<PathVariableRow>, name: &String) -> (r: Option<usize>)
    ensures
        match r {
            Some(k) => k < rows@.len() && last_named(path_rows_view(rows@), name@) == k,
            None => last_named(path_rows_view(rows@), name@) == -1,
        },
{
    let ghost view = path_rows_view(rows@);
    let mut k: usize = rows.len();
    assert(view.take(k as int) =~= view);
    while k > 0
        invariant
            view == path_rows_view(rows@),
            k <= rows@.len(),
            last_named(view, name@) == last_named(view.take(k as int), name@),
        decreases k,
    {
        assert(view.take(k as int).drop_last() =~= view.take(k - 1));
        assert(view.take(k as int).last() == rows@[k - 1]@);
        if rows[k - 1].name == *name {
            return Some(k - 1);
        }
        k = k - 1;
    }
    None
}

fn seen_before(names: &Vec<String>, i: usize) -> (r: bool)
    requires
        i < names@.len(),
    ensures
        r == !first_time(names@.map_values(|n: String| n@), i as int),
{
    let ghost view = names@.map_values(|n: String| n@);
    let mut j: usize = 0;
    while j < i
        invariant
            view == names@.map_values(|n: String| n@),
            i < names@.len(),
            0 <= j <= i,
            forall|m: int| 0 <= m < j ==> view[m] != view[i as int],
        decreases i - j,
    {
        if names[j] == names[i] {
            assert(view[j as int] == view[i as int]);
            return true;
        }
        j = j + 1;
    }
    false
}

/// Keeps the typed values of the path variables that are still in the URL,
/// in the URL's order; names without a row get one with their given value.
pub fn reconcile_path_variable_rows(rows: &mut Vec<PathVariableRow>, names: &Vec<String>, values: &Vec<PathVariableRow>)
    ensures
        path_rows_view(final(rows)@) == reconciled_rows(
            path_rows_view(old(rows)@),
            names@.map_values(|n: String| n@),
            path_rows_view(values@),
        ),
{
    let ghost before = path_rows_view(rows@);
    let ghost name_view = names@.map_values(|n: String| n@);
    let mut result: Vec<PathVariableRow> = Vec::new();
    let mut i: usize = 0;
    while i < names.len()
        invariant
            before == path_rows_view(old(rows)@),
            *rows == *old(rows),
            name_view == names@.map_values(|n: String| n@),
            0 <= i <= names@.len(),
            path_rows_view(result@) == reconciled_rows(before, name_view, path_rows_view(values@)).take(i as int),
        decreases names@.len() - i,
    {
        let name = &names[i];
        let existing = if seen_before(names, i) {
            None
        } else {
            find_last(rows, name)
        };
        let row = match existing {
            Some(k) => PathVariableRow { name: rows[k].name.clone(), value: rows[k].value.clone() },
            None => {
                let value = match find_last(values, name) {
                    Some(v) => values[v].value.clone(),
                    None => String::new(),
                };
                PathVariableRow { name: name.clone(), value }
            },
        };
        assert(row@ == reconciled_rows(before, name_view, path_rows_view(values@))[i as int]);
        let ghost prev = result@;
        result.push(row);
        assert(path_rows_view(result@) =~= path_rows_view(prev).push(row@));
        assert(reconciled_rows(before, name_view, path_rows_view(values@)).take(i + 1) =~= reconciled_rows(before, name_view, path_rows_view(values@)).take(i as int).push(row@));
        i = i + 1;
    }
    assert(reconciled_rows(before, name_view, path_rows_view(values@)).take(names@.len() as int) =~= reconciled_rows(before, name_view, path_rows_view(values@)));
    *rows = result;
}

/// The values set by the rows: each name with a non-empty value maps to it,
/// a later row of the same name replacing an earlier one; an empty value
/// means the variable is unset.
pub open spec fn value_map(rows: Seq<(Seq<char>, Seq<char>)>) -> Map<Seq<char>, Seq<char>>
    decreases rows.len(),
{
    if rows.len() == 0 {
        Map::empty()
    } else if rows.last().1.len() > 0 {
        value_map(rows.drop_last()).insert(rows.last().0, rows.last().1)
    } else {
        value_map(rows.drop_last())
    }
}

/// No two rows carry the same name.
pub open spec fn distinct_names(rows: Seq<(Seq<char>, Seq<char>)>) -> bool {
    forall|i: int, j: int| 0 <= i < j < rows.len() ==> rows[i].0 != rows[j].0
}

/// The rows, whose names are distinct, hold exactly the entries of the map.
pub open spec fn rows_hold_map(rows: Seq<(Seq<char>, Seq<char>)>, m: Map<Seq<char>, Seq<char>>) -> bool {
    &&& distinct_names(rows)
    &&& forall|i: int| 0 <= i < rows.len() ==> #[trigger] m.contains_key(rows[i].0) && m[rows[i].0] == rows[i].1
    &&& forall|k: Seq<char>| #[trigger] m.contains_key(k) ==> exists|i: int| 0 <= i < rows.len() && rows[i].0 == k
}

fn position_of(rows: &Vec<PathVariableRow>, name: &String) -> (r: Option<usize>)
    ensures
        match r {
            Some(j) => j < rows@.len() && rows@[j as int].name@ == name@,
            None => forall|i: int| 0 <= i < rows@.len() ==> rows@[i].name@ != name@,
        },
{
    let mut j: usize = 0;
    while j < rows.len()
        invariant
            0 <= j <= rows@.len(),
            forall|i: int| 0 <= i < j ==> rows@[i].name@ != name@,
        decreases rows@.len() - j,
    {
        if rows[j].name == *name {
            return Some(j);
        }
        j = j + 1;
    }
    None
}

/// The path variable values as a map from name to value: one row per name
/// that has a non-empty value, holding the value of the last such row, in
/// the order in which the names first get a value.
pub fn path_variable_values(rows: &Vec<PathVariableRow>) -> (r: Vec<PathVariableRow>)
    ensures
        rows_hold_map(path_rows_view(r@), value_map(path_rows_view(rows@))),
{
    let ghost view = path_rows_view(rows@);
    let mut out: Vec<PathVariableRow> = Vec::new();
    let mut k: usize = 0;
    assert(value_map(view.take(0)) =~= Map::empty());
    while k < rows.len()
        invariant
            view == path_rows_view(rows@),
            0 <= k <= rows@.len(),
            rows_hold_map(path_rows_view(out@), value_map(view.take(k as int))),
        decreases rows@.len() - k,
    {
        assert(view.take(k + 1).drop_last() =~= view.take(k as int));
        assert(view.take(k + 1).last() == rows@[k as int]@);
        let ghost before = value_map(view.take(k as int));
        let ghost prev = path_rows_view(out@);
        if rows[k].value.as_str().unicode_len() > 0 {
            let ghost after = before.insert(rows@[k as int].name@, rows@[k as int].value@);
            assert(value_map(view.take(k + 1)) == after);
            let row = PathVariableRow { name: rows[k].name.clone(), value: rows[k].value.clone() };
            match position_of(&out, &rows[k].name) {
                Some(j) => {
                    out.set(j, row);
                    let ghost now = path_rows_view(out@);
                    assert(now =~= prev.update(j as int, row@));
                    assert forall|a: int, b: int| 0 <= a < b < now.len() implies now[a].0 != now[b].0 by {
                        assert(now[a].0 == prev[a].0 && now[b].0 == prev[b].0);
                    }
                    assert forall|i: int| 0 <= i < now.len() implies #[trigger] after.contains_key(now[i].0) && after[now[i].0] == now[i].1 by {
                        assert(prev[j as int].0 == row@.0);
                        if i < j {
                            assert(prev[i].0 != prev[j as int].0);
                            assert(before.contains_key(prev[i].0));
                            assert(now[i] == prev[i]);
                        } else if i > j {
                            assert(prev[j as int].0 != prev[i].0);
                            assert(before.contains_key(prev[i].0));
                            assert(now[i] == prev[i]);
                        }
                    }
                    assert forall|key: Seq<char>| #[trigger] after.contains_key(key) implies exists|i: int| 0 <= i < now.len() && now[i].0 == key by {
                        if key == row@.0 {
                            assert(now[j as int].0 == key);
                        } else {
                            let i = choose|i: int| 0 <= i < prev.len() && prev[i].0 == key;
                            assert(now[i].0 == key);
                        }
                    }
                },
                None => {
                    out.push(row);
                    let ghost now = path_rows_view(out@);
                    assert(now =~= prev.push(row@));
                    assert forall|a: int, b: int| 0 <= a < b < now.len() implies now[a].0 != now[b].0 by {
                        if b < prev.len() {
                            assert(now[a].0 == prev[a].0 && now[b].0 == prev[b].0);
                        } else {
                            assert(now[a].0 == prev[a].0);
                        }
                    }
                    assert forall|i: int| 0 <= i < now.len() implies #[trigger] after.contains_key(now[i].0) && after[now[i].0] == now[i].1 by {
                        if i < prev.len() {
                            assert(prev[i].0 != row@.0);
                        }
                    }
                    assert forall|key: Seq<char>| #[trigger] after.contains_key(key) implies exists|i: int| 0 <= i < now.len() && now[i].0 == key by {
                        if key == row@.0 {
                            assert(now[prev.len() as int].0 == key);
                        } else {
                            let i = choose|i: int| 0 <= i < prev.len() && prev[i].0 == key;
                            assert(now[i].0 == key);
                        }
                    }
                },
            }
        } else {
            assert(value_map(view.take(k + 1)) == before);
        }
        k = k + 1;
    }
    assert(view.take(rows@.len() as int) =~= view);
    out
}

impl ApiTester {
    /// A row for a path variable with a starting value.
    pub fn new_path_variable_row(&self, name: &str, value: &str) -> (r: PathVariableRow)
        ensures
            r@ == (name@, value@),
    {
        PathVariableRow { name: crate::text::owned(name), value: crate::text::owned(value) }
    }

    /// Follows the path variables of the URL, keeping typed values.
    pub fn sync_path_variables_from_url(&mut self, names: &Vec<String>)
        ensures
            path_rows_view(final(self).path_variables@) == reconciled_rows(
                path_rows_view(old(self).path_variables@),
                names@.map_values(|n: String| n@),
                Seq::empty(),
            ),
            *final(self) == (ApiTester { path_variables: final(self).path_variables, ..*old(self) }),
    {
        let empty: Vec<PathVariableRow> = Vec::new();
        reconcile_path_variable_rows(&mut self.path_variables, names, &empty);
        assert(path_rows_view(empty@) =~= Seq::empty());
    }

    /// Builds the path variable rows of a loaded request from its URL's
    /// variables and the values saved with it.
    pub fn load_path_variables(&mut self, names: &Vec<String>, values: &Vec<PathVariableRow>)
        ensures
            path_rows_view(final(self).path_variables@) == reconciled_rows(
                Seq::empty(),
                names@.map_values(|n: String| n@),
                path_rows_view(values@),
            ),
            *final(self) == (ApiTester { path_variables: final(self).path_variables, ..*old(self) }),
    {
        let mut rows: Vec<PathVariableRow> = Vec::new();
        assert(path_rows_view(rows@) =~= Seq::empty());
        reconcile_path_variable_rows(&mut rows, names, values);
        self.path_variables = rows;
    }
}

} // verus!
