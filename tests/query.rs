use ohmers::codec::Encoder;
use ohmers::error::OhmerError;
use ohmers::keys::{index_key, record_key};
use ohmers::persist::all_query;
use ohmers::query::{plan, sort_command, BatchCommand, Query};
use ohmers::record::uniques_indices;
use std::collections::{BTreeSet, HashMap};

struct Dog;

fn text(v: &[u8]) -> String {
    String::from_utf8(v.to_vec()).unwrap()
}

fn b(x: &str) -> Vec<u8> {
    x.as_bytes().to_vec()
}

/// Sets and hashes held in memory, enough to run the solver's batches.
#[derive(Default)]
struct Memory {
    sets: HashMap<String, BTreeSet<String>>,
    hashes: HashMap<String, HashMap<String, String>>,
}

impl Memory {
    fn members(&self, key: &[u8]) -> BTreeSet<String> {
        self.sets.get(&text(key)).cloned().unwrap_or_default()
    }

    fn run(&mut self, cmd: &BatchCommand) -> Vec<String> {
        let a = &cmd.args;
        match cmd.name.as_str() {
            "SINTERSTORE" | "SUNIONSTORE" | "SDIFFSTORE" => {
                let mut acc = self.members(&a[1]);
                for k in &a[2..] {
                    let m = self.members(k);
                    acc = match cmd.name.as_str() {
                        "SINTERSTORE" => acc.intersection(&m).cloned().collect(),
                        "SUNIONSTORE" => acc.union(&m).cloned().collect(),
                        _ => acc.difference(&m).cloned().collect(),
                    };
                }
                self.sets.insert(text(&a[0]), acc);
                vec![]
            },
            "SINTER" | "SUNION" | "SDIFF" => {
                let mut acc = self.members(&a[0]);
                for k in &a[1..] {
                    let m = self.members(k);
                    acc = match cmd.name.as_str() {
                        "SINTER" => acc.intersection(&m).cloned().collect(),
                        "SUNION" => acc.union(&m).cloned().collect(),
                        _ => acc.difference(&m).cloned().collect(),
                    };
                }
                acc.into_iter().collect()
            },
            "SMEMBERS" => self.members(&a[0]).into_iter().collect(),
            "DEL" => {
                for k in a {
                    self.sets.remove(&text(k));
                }
                vec![]
            },
            "SORT" => {
                let pattern = text(&a[2]);
                let (prefix, field) = pattern.split_once("*->").unwrap();
                let mut ids: Vec<String> = self.members(&a[0]).into_iter().collect();
                ids.sort_by_key(|id| self.hashes[&format!("{}{}", prefix, id)][field].clone());
                if text(&a[3]) == "DESC" {
                    ids.reverse();
                }
                ids
            },
            other => panic!("unexpected command {}", other),
        }
    }

    fn run_batch(&mut self, cmds: &[BatchCommand]) -> Vec<String> {
        let mut kept = vec![];
        for c in cmds {
            let r = self.run(c);
            if c.keep {
                kept = r;
            }
        }
        kept
    }

    fn save_dog(&mut self, id: usize, name: &str, age: u64, color: &str) {
        let mut e = Encoder::new();
        e.set_name("Dog");
        e.emit_str("name", name);
        e.emit_u64("age", age);
        e.emit_str("color", color);
        let (_, indices) = uniques_indices(&e, &vec![], &vec!["age".to_string(), "color".to_string()]).unwrap();
        for (f, v) in indices {
            self.sets.entry(index_key("Dog", &f, &v)).or_default().insert(id.to_string());
        }
        self.sets.entry("Dog:all".to_string()).or_default().insert(id.to_string());
        self.hashes.insert(record_key("Dog", id), e.attributes.into_iter().collect());
    }

    fn dogs() -> Memory {
        let mut m = Memory::default();
        m.save_dog(1, "Max", 3, "white");
        m.save_dog(2, "Buddy", 3, "black");
        m.save_dog(3, "Bella", 2, "black");
        m.save_dog(4, "Lola", 3, "black");
        m
    }
}

#[test]
fn dogs_of_age_three_and_black_sorted_by_name() {
    let mut m = Memory::dogs();
    let mut q: Query<Dog> = Query::find("Dog", "age", "3");
    q.inter("color", "black");
    let ids = m.run_batch(&q.sort("name", None, true, true, &vec![]).unwrap());
    assert_eq!(ids, vec!["2", "4"]);
    let names: Vec<String> = ids.iter().map(|id| m.hashes[&format!("Dog:{}", id)]["name"].clone()).collect();
    assert_eq!(names, vec!["Buddy", "Lola"]);
}

#[test]
fn index_query_yields_exactly_matching_ids() {
    let mut m = Memory::dogs();
    let q: Query<Dog> = Query::find("Dog", "color", "black");
    let ids = m.run_batch(&q.try_iter().unwrap());
    assert_eq!(ids, vec!["2", "3", "4"]);
    let q: Query<Dog> = Query::find("Dog", "age", "2");
    assert_eq!(m.run_batch(&q.try_into_iter().unwrap()), vec!["3"]);
}

#[test]
fn composition_is_set_algebra_and_order_free() {
    let mut m = Memory::dogs();
    let mut a: Query<Dog> = Query::find("Dog", "age", "3");
    a.inter("color", "black");
    let mut c: Query<Dog> = Query::find("Dog", "color", "black");
    c.inter("age", "3");
    let ra = m.run_batch(&a.try_iter().unwrap());
    assert_eq!(ra, m.run_batch(&c.try_iter().unwrap()));
    assert_eq!(ra, vec!["2", "4"]);
    let mut u: Query<Dog> = Query::find("Dog", "age", "2");
    u.union("color", "white");
    assert_eq!(m.run_batch(&u.try_iter().unwrap()), vec!["1", "3"]);
    let mut d: Query<Dog> = Query::find("Dog", "age", "3");
    d.diff("color", "black");
    assert_eq!(m.run_batch(&d.try_iter().unwrap()), vec!["1"]);
    let k: Query<Dog> = Query::from_keys("Dog", &[("age", "3"), ("color", "white")]);
    assert_eq!(m.run_batch(&k.try_iter().unwrap()), vec!["1"]);
}

#[test]
fn all_records_sorted_descending() {
    let mut m = Memory::dogs();
    let q: Query<Dog> = all_query("Dog");
    let ids = m.run_batch(&q.sort("name", None, false, true, &vec![]).unwrap());
    assert_eq!(ids, vec!["1", "4", "2", "3"]);
}

#[test]
fn sort_command_shapes() {
    let t = sort_command("URL", "path", None, true, true, &vec![]);
    assert_eq!(t, vec![b("SORT"), vec![], b("BY"), b("URL:*->path"), b("ASC"), b("ALPHA")]);
    let t = sort_command("Party", "votes", Some((10, 5)), false, false, &vec!["votes".to_string()]);
    assert_eq!(t, vec![b("SORT"), vec![], b("BY"), b("Party:*:votes"), b("LIMIT"), b("10"), b("5"), b("DESC")]);
}

#[test]
fn plan_strips_transaction_and_keeps_result() {
    let ops = vec![
        vec![b("MULTI")],
        vec![b("SINTERSTORE"), b("stal:0"), b("a"), b("b")],
        vec![b("SMEMBERS"), b("stal:0")],
        vec![b("DEL"), b("stal:0")],
        vec![b("EXEC")],
    ];
    let cmds = plan(&ops, 2).unwrap();
    let shape: Vec<(String, usize, bool)> = cmds.iter().map(|c| (c.name.clone(), c.args.len(), c.keep)).collect();
    assert_eq!(shape, vec![("SINTERSTORE".to_string(), 3, false), ("SMEMBERS".to_string(), 1, true), ("DEL".to_string(), 1, false)]);
    assert_eq!(cmds[1].args, vec![b("stal:0")]);
}

#[test]
fn plan_rejects_non_utf8_command() {
    let ops = vec![vec![b("MULTI")], vec![vec![0xff, 0x00], b("k")], vec![b("EXEC")]];
    assert!(matches!(plan(&ops, 1), Err(OhmerError::CommandError(v)) if v == vec![0xff, 0x00]));
    let ops = vec![vec![b("MULTI")], vec![], vec![b("EXEC")]];
    assert!(matches!(plan(&ops, 1), Err(OhmerError::CommandError(_))));
}

#[test]
fn query_key_is_index_key() {
    let k = Query::<Dog>::key("Dog", "age", "3");
    assert!(matches!(k, stal::Set::Key(v) if v == b("Dog:indices:age:3")));
}
