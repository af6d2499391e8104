use tfm2_atlas::overview::{overview_rows, PersonRow};

fn person(name: &str, team_id: Option<usize>) -> PersonRow {
    PersonRow { name: name.to_owned(), team_id }
}

#[test]
fn overview_sorts_by_lowercase_name_and_names_each_team() {
    let players = vec![
        person("bravo", Some(1)),
        person("Alpha", Some(2)),
        person("alpha", None),
        person("Charlie", Some(9)),
    ];
    let staffs = vec![person("Zed", Some(1)), person("amy", Some(1))];
    let teams = vec![(2, "zeta Team".to_owned()), (1, "Alpha Team".to_owned())];
    let rows = overview_rows(&players, &staffs, &teams, Some(1));

    let order: Vec<usize> = rows.players.iter().map(|row| row.source).collect();
    assert_eq!(order, vec![1, 2, 0, 3]);
    let names: Vec<&str> = rows.players.iter().map(|row| row.team.as_str()).collect();
    assert_eq!(names, vec!["zeta Team", "Free Agent", "Alpha Team", "Free Agent"]);

    let staff_order: Vec<usize> = rows.staffs.iter().map(|row| row.source).collect();
    assert_eq!(staff_order, vec![1, 0]);
    assert!(rows.staffs.iter().all(|row| row.team == "Alpha Team"));

    assert_eq!(rows.teams.len(), 2);
    assert_eq!(rows.teams[0].id, 1);
    assert_eq!(rows.teams[0].name, "Alpha Team");
    assert!(rows.teams[0].player_team);
    assert_eq!(rows.teams[0].roster, 1);
    assert_eq!(rows.teams[0].staffs, 2);
    assert_eq!(rows.teams[1].id, 2);
    assert!(!rows.teams[1].player_team);
    assert_eq!(rows.teams[1].roster, 1);
    assert_eq!(rows.teams[1].staffs, 0);
}
