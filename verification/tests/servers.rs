use madproxy::servers::{CounterOp, ServerEntry, Servers, TableError};

fn entry(id: &str, hostnames: &[&str], backend: &str) -> ServerEntry {
    ServerEntry {
        id: id.to_string(),
        hostnames: hostnames.iter().map(|h| h.to_string()).collect(),
        backend_server: backend.to_string(),
        player_count: 0,
    }
}

fn sample() -> Servers {
    Servers::from_entries(vec![
        entry("s1", &["mc.example.com", "alias.example.com"], "10.0.0.1:25565"),
        entry("s2", &["b.example.com"], "10.0.0.2:25565"),
        entry("s3", &["c", "d", "e"], "10.0.0.3:25566"),
    ])
    .unwrap()
}

#[test]
fn lookup_finds_every_hostname_of_every_entry() {
    let table = sample();
    for listed in table.list_servers() {
        for host in &listed.hostnames {
            let found = table.get_by_hostname(host).unwrap();
            assert_eq!(found.id, listed.id);
            assert_eq!(found.hostnames, listed.hostnames);
            assert_eq!(found.backend_server, listed.backend_server);
        }
    }
    assert_eq!(table.get_by_hostname("alias.example.com").unwrap().id, "s1");
    assert_eq!(table.get_by_hostname("e").unwrap().backend_server, "10.0.0.3:25566");
}

#[test]
fn lookup_of_an_unlisted_hostname_finds_nothing() {
    let table = sample();
    assert!(table.get_by_hostname("unknown.example").is_none());
    assert!(table.get_by_hostname("").is_none());
    assert!(table.get_by_hostname("MC.EXAMPLE.COM").is_none());
    assert!(table.get_by_hostname("mc.example.co").is_none());
    assert!(table.get_by_hostname("s1").is_none());
    assert!(Servers::new().get_by_hostname("a").is_none());
    assert_eq!(table.get_player_count("unknown.example"), None);
}

#[test]
fn a_new_table_counts_from_zero() {
    let mut given = entry("s1", &["a"], "127.0.0.1:9");
    given.player_count = 7;
    let table = Servers::from_entries(vec![given]).unwrap();
    assert_eq!(table.get_player_count("a"), Some(0));
    assert_eq!(table.get_by_hostname("a").unwrap().player_count, 0);
    assert_eq!(table.len(), 1);
    assert_eq!(Servers::new().len(), 0);
}

#[test]
fn a_table_needs_hostnames() {
    let res = Servers::from_entries(vec![entry("s1", &["a"], "x:1"), entry("s2", &[], "x:2")]);
    assert_eq!(res.err(), Some(TableError::NoHostnames));
    let res = Servers::from_entries(vec![
        entry("s1", &["a"], "x:1"),
        entry("s2", &["a"], "x:2"),
        entry("s3", &[], "x:3"),
    ]);
    assert_eq!(res.err(), Some(TableError::NoHostnames));
}

#[test]
fn a_table_lists_no_hostname_twice() {
    let res = Servers::from_entries(vec![entry("s1", &["a", "b"], "x:1"), entry("s2", &["b"], "x:2")]);
    assert_eq!(res.err(), Some(TableError::HostnameTaken));
    let res = Servers::from_entries(vec![entry("s1", &["a", "a"], "x:1")]);
    assert_eq!(res.err(), Some(TableError::HostnameTaken));
    assert!(Servers::from_entries(vec![entry("s1", &["a", "A"], "x:1")]).is_ok());
    assert!(Servers::from_entries(Vec::new()).is_ok());
}

#[test]
fn counts_go_up_and_down() {
    let mut table = sample();
    assert_eq!(table.increment_player_count("mc.example.com"), Some(1));
    assert_eq!(table.increment_player_count("alias.example.com"), Some(2));
    assert_eq!(table.increment_player_count("mc.example.com"), Some(3));
    assert_eq!(table.get_player_count("alias.example.com"), Some(3));
    assert_eq!(table.get_player_count("b.example.com"), Some(0));
    assert_eq!(table.decrement_player_count("alias.example.com"), Some(2));
    assert_eq!(table.decrement_player_count("mc.example.com"), Some(1));
    assert_eq!(table.get_player_count("mc.example.com"), Some(1));
    assert_eq!(table.get_by_hostname("mc.example.com").unwrap().player_count, 1);
    assert_eq!(table.get_player_count("c"), Some(0));
}

#[test]
fn counts_of_unlisted_hostnames() {
    let mut table = sample();
    assert_eq!(table.increment_player_count("unknown"), None);
    assert_eq!(table.decrement_player_count("unknown"), None);
    assert_eq!(table.count("unknown", CounterOp::Join), None);
    for listed in table.list_servers() {
        assert_eq!(listed.player_count, 0);
    }
}

#[test]
fn a_count_never_goes_below_zero() {
    let mut table = sample();
    assert_eq!(table.decrement_player_count("c"), Some(0));
    assert_eq!(table.decrement_player_count("c"), Some(0));
    assert_eq!(table.get_player_count("c"), Some(0));
    assert_eq!(table.increment_player_count("c"), Some(1));
    assert_eq!(table.decrement_player_count("d"), Some(0));
    assert_eq!(table.decrement_player_count("e"), Some(0));
}

#[test]
fn joins_before_leaves_give_the_difference_or_zero() {
    for joins in 0..6usize {
        for leaves in 0..9usize {
            let mut table = sample();
            for _ in 0..joins {
                table.count("c", CounterOp::Join);
            }
            for _ in 0..leaves {
                table.count("c", CounterOp::Leave);
            }
            assert_eq!(table.get_player_count("c"), Some(joins.saturating_sub(leaves)));
        }
    }
}

#[test]
fn paired_joins_and_leaves_in_any_order() {
    let mut table = sample();
    let ops = [true, true, false, true, false, false, true, true, true, false];
    let mut joins = 0usize;
    let mut leaves = 0usize;
    for join in ops {
        if join {
            joins += 1;
            table.count("d", CounterOp::Join);
        } else {
            leaves += 1;
            table.count("d", CounterOp::Leave);
        }
        assert_eq!(table.get_player_count("d"), Some(joins - leaves));
    }
    assert_eq!(table.get_player_count("d"), Some(2));
}

#[test]
fn a_leave_at_zero_is_not_made_up_for() {
    let mut table = sample();
    assert_eq!(table.count("c", CounterOp::Leave), Some(0));
    assert_eq!(table.count("c", CounterOp::Join), Some(1));
    assert_eq!(table.get_player_count("c"), Some(1));
}

#[test]
fn a_full_count_stays_full() {
    let mut full = entry("s1", &["a"], "x:1");
    full.player_count = usize::MAX;
    let mut table = Servers::new();
    assert_eq!(table.add_server(full), Ok(()));
    assert_eq!(table.increment_player_count("a"), Some(usize::MAX));
    assert_eq!(table.decrement_player_count("a"), Some(usize::MAX - 1));
    assert_eq!(table.increment_player_count("a"), Some(usize::MAX));
}

#[test]
fn add_server_puts_the_entry_last() {
    let mut table = sample();
    let mut added = entry("s4", &["f", "g"], "10.0.0.4:1");
    added.player_count = 5;
    assert_eq!(table.add_server(added), Ok(()));
    assert_eq!(table.len(), 4);
    let listed = table.list_servers();
    assert_eq!(listed[3].id, "s4");
    assert_eq!(listed[3].hostnames, vec!["f".to_string(), "g".to_string()]);
    assert_eq!(listed[3].player_count, 5);
    assert_eq!(listed[0].id, "s1");
    assert_eq!(table.get_by_hostname("g").unwrap().backend_server, "10.0.0.4:1");
}

#[test]
fn add_server_refuses_what_does_not_fit() {
    let mut table = sample();
    assert_eq!(table.add_server(entry("s4", &[], "x:1")), Err(TableError::NoHostnames));
    assert_eq!(table.add_server(entry("s4", &["z", "c"], "x:1")), Err(TableError::HostnameTaken));
    assert_eq!(table.add_server(entry("s4", &["z", "z"], "x:1")), Err(TableError::HostnameTaken));
    assert_eq!(table.len(), 3);
    assert!(table.get_by_hostname("z").is_none());
    assert_eq!(table.get_by_hostname("c").unwrap().id, "s3");
}

#[test]
fn remove_server_takes_the_entry_out() {
    let mut table = sample();
    assert!(table.remove_server("alias.example.com"));
    assert_eq!(table.len(), 2);
    assert!(table.get_by_hostname("mc.example.com").is_none());
    assert!(table.get_by_hostname("alias.example.com").is_none());
    let listed = table.list_servers();
    assert_eq!(listed[0].id, "s2");
    assert_eq!(listed[1].id, "s3");
    assert!(!table.remove_server("alias.example.com"));
    assert!(!table.remove_server("unknown"));
    assert_eq!(table.len(), 2);
}

#[test]
fn update_server_replaces_in_place() {
    let mut table = sample();
    table.increment_player_count("b.example.com");
    let mut new_entry = entry("s2b", &["b.example.com", "b2"], "10.9.9.9:1");
    new_entry.player_count = 4;
    assert_eq!(table.update_server("b.example.com", new_entry), Ok(true));
    let listed = table.list_servers();
    assert_eq!(listed.len(), 3);
    assert_eq!(listed[1].id, "s2b");
    assert_eq!(listed[1].backend_server, "10.9.9.9:1");
    assert_eq!(listed[1].player_count, 4);
    assert_eq!(table.get_by_hostname("b2").unwrap().id, "s2b");
    assert_eq!(listed[0].id, "s1");
    assert_eq!(listed[2].id, "s3");
}

#[test]
fn update_server_may_drop_the_old_name() {
    let mut table = sample();
    assert_eq!(table.update_server("c", entry("s3", &["x"], "10.0.0.3:1")), Ok(true));
    assert!(table.get_by_hostname("c").is_none());
    assert!(table.get_by_hostname("d").is_none());
    assert_eq!(table.get_by_hostname("x").unwrap().id, "s3");
}

#[test]
fn update_server_without_a_match() {
    let mut table = sample();
    assert_eq!(table.update_server("unknown", entry("s9", &["q"], "x:1")), Ok(false));
    assert!(table.get_by_hostname("q").is_none());
    assert_eq!(table.len(), 3);
}

#[test]
fn update_server_refuses_what_does_not_fit() {
    let mut table = sample();
    assert_eq!(
        table.update_server("c", entry("s3", &["c", "b.example.com"], "x:1")),
        Err(TableError::HostnameTaken)
    );
    assert_eq!(table.update_server("c", entry("s3", &[], "x:1")), Err(TableError::NoHostnames));
    assert_eq!(table.update_server("c", entry("s3", &["n", "n"], "x:1")), Err(TableError::HostnameTaken));
    let listed = table.list_servers();
    assert_eq!(listed[2].id, "s3");
    assert_eq!(listed[2].backend_server, "10.0.0.3:25566");
    assert_eq!(listed[2].hostnames.len(), 3);
}

#[test]
fn list_servers_gives_copies() {
    let mut table = sample();
    let mut listed = table.list_servers();
    listed[0].player_count = 99;
    listed[0].hostnames.push("zzz".to_string());
    assert_eq!(table.get_player_count("mc.example.com"), Some(0));
    assert!(table.get_by_hostname("zzz").is_none());
    table.increment_player_count("mc.example.com");
    assert_eq!(listed[0].player_count, 99);
    let copy = listed[1].clone();
    assert_eq!(copy.id, "s2");
    assert_eq!(copy.hostnames, listed[1].hostnames);
}
