use log_streamer::kubectl::{Context, Kubectl, KubectlError};
use log_streamer::table::{place_at, table_to_hashmap};
use log_streamer::text_map::TextMap;

const TABLE: &str = "CURRENT   NAME      CLUSTER   AUTHINFO   NAMESPACE\n*         default   default   default    \n          123       456       789        \n                                       \n          default   default   default    \n";

fn row(map: &TextMap<String>) -> Vec<(String, String)> {
    ["CURRENT", "NAME", "CLUSTER", "AUTHINFO", "NAMESPACE"]
        .iter()
        .map(|key| (key.to_string(), map.get(key).unwrap().clone()))
        .collect()
}

fn expected(values: [&str; 5]) -> Vec<(String, String)> {
    ["CURRENT", "NAME", "CLUSTER", "AUTHINFO", "NAMESPACE"]
        .iter()
        .zip(values)
        .map(|(k, v)| (k.to_string(), v.to_string()))
        .collect()
}

#[test]
fn a_table_is_read_row_by_row() {
    let rows = table_to_hashmap(TABLE, "N/A").unwrap();
    assert_eq!(rows.len(), 4);
    assert_eq!(row(&rows[0]), expected(["*", "default", "default", "default", "N/A"]));
    assert_eq!(row(&rows[1]), expected(["N/A", "123", "456", "789", "N/A"]));
    assert_eq!(row(&rows[2]), expected(["N/A", "N/A", "N/A", "N/A", "N/A"]));
    assert_eq!(row(&rows[3]), expected(["N/A", "default", "default", "default", "N/A"]));
    for map in &rows {
        assert_eq!(map.len(), 5);
    }
}

#[test]
fn a_table_needs_a_header_and_rows_that_fit() {
    assert!(table_to_hashmap("", "N/A").is_none());
    assert_eq!(table_to_hashmap("A B\n", "-").unwrap().len(), 0);
    assert!(table_to_hashmap("A B\n1 2 3 4\n", "-").is_none());
    assert!(table_to_hashmap("A B\n1\n", " ").is_none());
    assert!(table_to_hashmap("A  B\n1\n", "--").is_none());
    let rows = table_to_hashmap("A  B\n1\n", "-").unwrap();
    assert_eq!(rows[0].get("A"), Some(&"1".to_string()));
    assert_eq!(rows[0].get("B"), Some(&"-".to_string()));
    let rows = table_to_hashmap("\n", "-").unwrap();
    assert_eq!(rows.len(), 0);
    assert!(table_to_hashmap("\nA\n", "-").is_none());
}

#[test]
fn places_are_counted_in_bytes() {
    let rows = table_to_hashmap("ÄB  C\nx   y\n", "-").unwrap();
    assert_eq!(rows[0].get("ÄB"), Some(&"x".to_string()));
    assert_eq!(rows[0].get("C"), Some(&"y-".to_string()));
    assert!(table_to_hashmap("AB  Ä\nx\n", "€").is_none());
    assert!(table_to_hashmap("Ä   B\nx\n", "é").is_none());
    let rows = table_to_hashmap("Ä   BC\nx\n", "é").unwrap();
    assert_eq!(rows[0].get("BC"), Some(&"é".to_string()));
    let line: Vec<char> = "aé€b".chars().collect();
    assert_eq!(place_at(&line, 0), Some(0));
    assert_eq!(place_at(&line, 1), Some(1));
    assert_eq!(place_at(&line, 2), None);
    assert_eq!(place_at(&line, 3), Some(2));
    assert_eq!(place_at(&line, 6), Some(3));
    assert_eq!(place_at(&line, 7), Some(4));
    assert_eq!(place_at(&line, 8), None);
}

#[test]
fn a_label_within_another_takes_the_first_place() {
    let rows = table_to_hashmap("NAMESPACE NAME\nx         y\n", "-").unwrap();
    assert_eq!(rows[0].get("NAMESPACE"), Some(&"x".to_string()));
    assert_eq!(rows[0].get("NAME"), Some(&"y".to_string()));
    let rows = table_to_hashmap("NAMESPACE NAME\n          y\n", "-").unwrap();
    assert_eq!(rows[0].get("NAMESPACE"), Some(&"-".to_string()));
    assert_eq!(rows[0].get("NAME"), Some(&"y".to_string()));
    assert!(table_to_hashmap("NAMESPACE NAME\nx\n", "-").is_none());
}

#[test]
fn contexts_are_read_from_the_table() {
    let contexts = Kubectl::get_contexts(TABLE).unwrap();
    assert_eq!(contexts.len(), 4);
    assert_eq!(
        contexts[0],
        Context {
            current: true,
            name: "default".to_string(),
            cluster: "default".to_string(),
            auth_info: "default".to_string(),
            namespace: String::new(),
        }
    );
    assert_eq!(
        contexts[1],
        Context {
            current: false,
            name: "123".to_string(),
            cluster: "456".to_string(),
            auth_info: "789".to_string(),
            namespace: String::new(),
        }
    );
    assert_eq!(contexts[2], Context::named(String::new()));
    assert_eq!(
        contexts[0].describe(),
        "\tname: default, cluster: default, auth_info: default, namespace: , current: true"
    );
}

#[test]
fn contexts_need_the_header() {
    assert_eq!(Kubectl::get_contexts("no table here\n"), Err(KubectlError::NoHeader));
    assert_eq!(Kubectl::get_contexts(""), Err(KubectlError::NoHeader));
    let late = "warning: something\nCURRENT   NAME      CLUSTER   AUTHINFO   NAMESPACE\n";
    assert_eq!(Kubectl::get_contexts(late), Err(KubectlError::NoTable));
    assert_eq!(
        KubectlError::NoHeader.message(),
        "\"kubectl config get-contexts\" returns no header, cannot get Kubernetes contexts"
    );
    let only_header = "CURRENT   NAME      CLUSTER   AUTHINFO   NAMESPACE\n";
    assert_eq!(Kubectl::get_contexts(only_header), Ok(vec![]));
}
