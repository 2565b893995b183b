use xcvrd::db::{DbTable, Rows};
use xcvrd::dom::db_utils::{DbUtils, FlagTables};
use xcvrd::json::{Fvs, Row, Value};
use xcvrd::mock::MockDbTable;

/// A table that merges what is written into the row that is there.
struct Merging(MockDbTable);

impl DbTable for Merging {
    fn rows(&self) -> Rows {
        unreachable!("ghost")
    }

    fn stored(_old: Option<Row>, _written: Row) -> Row {
        unreachable!("ghost")
    }

    fn sizes_readable(&self) -> bool {
        unreachable!("ghost")
    }

    fn stored_is_read_back(_old: Option<Row>, _written: Row) {
        unreachable!("ghost")
    }

    fn set(&mut self, key: &str, fvs: &Fvs) {
        for (field, value) in fvs {
            self.0.hset(key, field, value);
        }
    }

    fn hset(&mut self, key: &str, field: &str, value: &str) {
        self.0.hset(key, field, value);
    }

    fn get(&self, key: &str) -> Option<Fvs> {
        self.0.get(key)
    }

    fn hget(&self, key: &str, field: &str) -> Option<String> {
        self.0.hget(key, field)
    }

    fn del(&mut self, key: &str) {
        self.0.del(key);
    }

    fn hdel(&mut self, key: &str, field: &str) {
        self.0.hdel(key, field);
    }

    fn get_keys(&self) -> Vec<String> {
        self.0.get_keys()
    }

    fn get_size(&self) -> usize {
        self.0.get_size()
    }

    fn get_size_for_key(&self, key: &str) -> usize {
        self.0.get_size_for_key(key)
    }

    fn get_size_for_key_checked(&self, key: &str) -> Option<usize> {
        self.0.get_size_for_key_checked(key)
    }
}

fn table(name: &str) -> Merging {
    Merging(MockDbTable::new(name))
}

fn read(flags: &[(&str, bool)]) -> Vec<(String, Value)> {
    flags.iter().map(|(k, v)| (k.to_string(), Value::Bool(*v))).collect()
}

#[test]
fn every_flag_that_moved_is_recorded() {
    let mut t = FlagTables {
        value: table("V"),
        change_count: table("C"),
        set_time: table("S"),
        clear_time: table("R"),
    };
    let utils = DbUtils::new();
    let first = read(&[("a", false), ("b", true), ("c", true)]);
    utils.update_flag_metadata_tables("Ethernet0", &first, "now", &mut t);
    for (k, v) in [("a", "False"), ("b", "True"), ("c", "True")] {
        t.value.hset("Ethernet0", k, v);
    }
    let second = read(&[("a", true), ("b", false), ("c", true)]);
    utils.update_flag_metadata_tables("Ethernet0", &second, "later", &mut t);

    let count = |k: &str| t.change_count.hget("Ethernet0", k).unwrap();
    let set = |k: &str| t.set_time.hget("Ethernet0", k).unwrap();
    let clear = |k: &str| t.clear_time.hget("Ethernet0", k).unwrap();
    assert_eq!((count("a"), set("a"), clear("a")), ("1".into(), "later".into(), "never".into()));
    assert_eq!((count("b"), set("b"), clear("b")), ("1".into(), "never".into(), "later".into()));
    assert_eq!((count("c"), set("c"), clear("c")), ("0".into(), "never".into(), "never".into()));
}
