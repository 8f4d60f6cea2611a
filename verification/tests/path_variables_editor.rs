use api_tester::api_tester::ApiTester;
use api_tester::path_variables_editor::{
    PathVariableRow, path_variable_values, reconcile_path_variable_rows,
};

fn row(name: &str, value: &str) -> PathVariableRow {
    PathVariableRow {
        name: name.to_owned(),
        value: value.to_owned(),
    }
}

fn names(list: &[&str]) -> Vec<String> {
    list.iter().map(|name| (*name).to_owned()).collect()
}

#[test]
fn surviving_path_variables_keep_their_values_in_url_order() {
    let mut rows = vec![row("id", "7"), row("org", "acme"), row("gone", "x")];
    reconcile_path_variable_rows(&mut rows, &names(&["org", "id", "new"]), &Vec::new());
    assert_eq!(rows, vec![row("org", "acme"), row("id", "7"), row("new", "")]);
}

#[test]
fn repeated_names_get_fresh_rows_and_loaded_values_fill_new_rows() {
    let mut rows = vec![row("id", "1"), row("id", "2")];
    reconcile_path_variable_rows(&mut rows, &names(&["id", "id"]), &vec![row("id", "9")]);
    assert_eq!(rows, vec![row("id", "2"), row("id", "9")]);
}

#[test]
fn only_set_values_are_reported() {
    let rows = vec![row("a", "1"), row("b", ""), row("c", "3")];
    assert_eq!(path_variable_values(&rows), vec![row("a", "1"), row("c", "3")]);
}

#[test]
fn a_later_row_of_the_same_name_wins() {
    let rows = vec![row("id", "1"), row("org", "x"), row("id", "2"), row("org", "")];
    assert_eq!(path_variable_values(&rows), vec![row("id", "2"), row("org", "x")]);
}

#[test]
fn the_editor_follows_the_url_and_loads_saved_values() {
    let mut app = ApiTester::new();
    app.load_path_variables(&names(&["user", "team"]), &vec![row("team", "core")]);
    assert_eq!(app.path_variables, vec![row("user", ""), row("team", "core")]);
    app.path_variables[0].value = "42".to_owned();
    app.sync_path_variables_from_url(&names(&["team", "user", "repo"]));
    assert_eq!(
        app.path_variables,
        vec![row("team", "core"), row("user", "42"), row("repo", "")]
    );
    assert_eq!(app.new_path_variable_row("x", "y"), row("x", "y"));
}
