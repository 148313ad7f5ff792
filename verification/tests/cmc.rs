use std::path::{Path, PathBuf};

use clipfile::cmc::observed_page_file_name;
use clipfile::{CmcFile, Database, Error, Limits};
use rusqlite::Connection;

fn cmc_database(cycle: bool, unsafe_link: bool) -> Connection {
    let connection = Connection::open_in_memory().unwrap();
    connection
        .execute_batch(
            "CREATE TABLE Project (
                ProjectInternalVersion TEXT,
                ProjectRootCanvasNode INTEGER,
                MaxCanvasFileIndex INTEGER
             );
             CREATE TABLE CanvasNode (
                MainId INTEGER,
                Type INTEGER,
                NextIndex INTEGER,
                FirstChildIndex INTEGER,
                SelectedIndex INTEGER,
                CanvasIndex INTEGER,
                PageFlag INTEGER,
                LinkPath TEXT
             );
             INSERT INTO Project VALUES ('1.1.0', 1, 2);
             INSERT INTO CanvasNode VALUES (1, 0, 0, 2, 2, 0, 0, NULL);",
        )
        .unwrap();
    connection
        .execute(
            "INSERT INTO CanvasNode VALUES (2, 2, ?1, 0, 0, 0, 0, ?2)",
            (
                if cycle { 2 } else { 3 },
                if unsafe_link {
                    ".:../outside.clip"
                } else {
                    ".:page0001.clip"
                },),
        )
        .unwrap();
    connection
        .execute(
            "INSERT INTO CanvasNode VALUES (3, 2, 0, 0, 0, 0, 0, '.:page0002.clip')",
            [],
        )
        .unwrap();
    connection
}

#[test]
fn reads_and_resolves_a_valid_page_index() {
    let cmc = CmcFile::from_database(
        Database::from_connection(cmc_database(false, false)).unwrap(),
        Some(PathBuf::from("project/book.cmc")),
        Limits::default(),
    )
    .unwrap();

    assert_eq!(cmc.internal_version(), "1.1.0");
    assert_eq!(cmc.root_node_id(), 1);
    assert_eq!(cmc.max_canvas_file_index(), 2);
    assert_eq!(cmc.children_of(1), Some([2, 3].as_slice()));
    assert_eq!(
        cmc.page_nodes()
            .iter()
            .map(|node| node.page_file_name().unwrap())
            .collect::<Vec<_>>(),
        ["page0001.clip", "page0002.clip"]
    );
    assert_eq!(
        cmc.page_path(2).as_deref(),
        Some(Path::new("project/page0001.clip"))
    );
}

#[test]
fn preserves_unknown_links_without_resolving_them() {
    let cmc = CmcFile::from_database(
        Database::from_connection(cmc_database(false, true)).unwrap(),
        Some(PathBuf::from("project/book.cmc")),
        Limits::default(),
    )
    .unwrap();

    assert_eq!(
        cmc.node(2).unwrap().raw_link_path(),
        Some(".:../outside.clip")
    );
    assert_eq!(cmc.node(2).unwrap().page_file_name(), None);
    assert_eq!(cmc.page_path(2), None);
}

#[test]
fn rejects_cycles_and_node_limit_overruns() {
    assert!(matches!(
        CmcFile::from_database(
            Database::from_connection(cmc_database(true, false)).unwrap(),
            None,
            Limits::default(),
        ),
        Err(Error::InvalidCmc { .. })
    ));
    assert!(matches!(
        CmcFile::from_database(
            Database::from_connection(cmc_database(false, false)).unwrap(),
            None,
            Limits::default().with_max_cmc_nodes(2),
        ),
        Err(Error::LimitExceeded {
            resource: "CMC nodes",
            ..
        })
    ));
}

#[test]
fn page_names_stay_in_their_directory() {
    assert_eq!(observed_page_file_name(".:page0001.clip").as_deref(), Some("page0001.clip"));
    for link in [".:../page.clip", ".:a/b.clip", ".:a\\b.clip", "page0001.clip", ".:", ""] {
        assert_eq!(observed_page_file_name(link), None, "{link}");
    }
}

#[test]
fn every_page_is_listed_once() {
    let cmc = CmcFile::from_database(
        Database::from_connection(cmc_database(false, false)).unwrap(),
        None,
        Limits::default(),
    )
    .unwrap();
    assert_eq!(cmc.nodes().len(), 3);
    assert_eq!(cmc.page_path(2), None);
    assert_eq!(cmc.children_of(2), Some([].as_slice()));
    assert!(cmc.node(4).is_none());
    assert_eq!(cmc.node(2).unwrap().next_id(), Some(3));
    assert_eq!(cmc.node(1).unwrap().selected_id(), Some(2));
}

#[test]
fn serialized_indexes_are_read_from_bytes() {
    let mut connection = cmc_database(false, false);
    let data = connection.serialize("main").unwrap();
    let cmc = CmcFile::from_reader(&data, Limits::default()).unwrap();
    assert_eq!(cmc.internal_version(), "1.1.0");
    assert!(cmc.source_path().is_none());
    assert!(CmcFile::from_reader(b"not a database", Limits::default()).is_err());
}

#[test]
fn nodes_come_directly_before_the_subtrees_of_their_children() {
    let connection = cmc_database(false, false);
    connection
        .execute_batch(
            "UPDATE CanvasNode SET FirstChildIndex = 5 WHERE MainId = 2;
             INSERT INTO CanvasNode VALUES (4, 2, 0, 0, 0, 0, 0, NULL);
             INSERT INTO CanvasNode VALUES (5, 2, 4, 6, 0, 0, 0, NULL);
             INSERT INTO CanvasNode VALUES (6, 2, 0, 0, 0, 0, 0, NULL);",
        )
        .unwrap();
    let cmc = CmcFile::from_database(
        Database::from_connection(connection).unwrap(),
        None,
        Limits::default(),
    )
    .unwrap();
    let ids = cmc.nodes().iter().map(|node| node.id()).collect::<Vec<_>>();
    assert_eq!(ids, [1, 2, 5, 6, 4, 3]);
    for node in cmc.nodes() {
        assert_eq!(cmc.node(node.id()), Some(node));
    }
}

fn refusal(statement: &str) -> String {
    let connection = cmc_database(false, false);
    connection.execute_batch(statement).unwrap();
    CmcFile::from_database(
        Database::from_connection(connection).unwrap(),
        None,
        Limits::default(),
    )
    .err()
    .unwrap()
    .message()
}

#[test]
fn broken_page_trees_are_described() {
    for (statement, reason) in [
        (
            "UPDATE CanvasNode SET NextIndex = 2 WHERE MainId = 2",
            "CanvasNode sibling chain under 1 contains a cycle at 2",
        ),
        (
            "UPDATE CanvasNode SET FirstChildIndex = 3 WHERE MainId = 2",
            "CanvasNode 3 has parents 1 and 2",
        ),
        (
            "UPDATE CanvasNode SET FirstChildIndex = 1 WHERE MainId = 2",
            "root CanvasNode 1 is a child of 2",
        ),
        (
            "UPDATE CanvasNode SET NextIndex = 0 WHERE MainId = 2",
            "1 CanvasNode rows are unreachable from root 1",
        ),
        (
            "UPDATE CanvasNode SET SelectedIndex = 9 WHERE MainId = 3",
            "CanvasNode 3 SelectedIndex references missing node 9",
        ),
        (
            "UPDATE CanvasNode SET FirstChildIndex = -4 WHERE MainId = 3",
            "CanvasNode FirstChildIndex value -4 is negative",
        ),
        (
            "UPDATE CanvasNode SET MainId = 0 WHERE MainId = 3",
            "CanvasNode MainId 0 is not positive",
        ),
        (
            "UPDATE CanvasNode SET MainId = 2 WHERE MainId = 3",
            "duplicate CanvasNode MainId 2",
        ),
        (
            "UPDATE Project SET ProjectRootCanvasNode = 8",
            "root CanvasNode 8 does not exist",
        ),
        (
            "INSERT INTO Project VALUES ('1.1.0', 1, 2)",
            "Project has 2 rows instead of one",
        ),
    ] {
        assert_eq!(
            refusal(statement),
            format!("invalid CLIP page-management file: {reason}")
        );
    }
}
