use ohmers::error::OhmerError;
use ohmers::persist::{with_command, Iter};
use ohmers::relation::{load_command, Collection, Counter, IdSet, List, Reference};

fn args(c: &ohmers::command::Command) -> Vec<String> {
    c.args.iter().map(|a| String::from_utf8(a.clone()).unwrap()).collect()
}

struct Task;

#[test]
fn counter_commands() {
    let c = Counter;
    assert_eq!(args(&c.incr("Party", 1, "votes", 1).unwrap()), vec!["INCRBY", "Party:1:votes", "1"]);
    assert_eq!(args(&c.incr("Party", 1, "votes", -1).unwrap()), vec!["INCRBY", "Party:1:votes", "-1"]);
    assert_eq!(args(&c.get("Party", 1, "votes").unwrap()), vec!["GET", "Party:1:votes"]);
    assert!(matches!(c.incr("Party", 0, "votes", 1), Err(OhmerError::NotSaved)));
    assert!(matches!(c.get("Party", 0, "votes"), Err(OhmerError::NotSaved)));
    assert_eq!(Counter::value(None), 0);
    assert_eq!(Counter::value(Some(52)), 52);
}

#[test]
fn list_commands() {
    let l: List<Task> = List::new();
    assert_eq!(args(&l.len("Queue", "tasks", 1).unwrap()), vec!["LLEN", "Queue:tasks:1"]);
    assert_eq!(args(&l.push_back("Queue", "tasks", 1, 7).unwrap()), vec!["RPUSH", "Queue:tasks:1", "7"]);
    assert_eq!(args(&l.push_front("Queue", "tasks", 1, 7).unwrap()), vec!["LPUSH", "Queue:tasks:1", "7"]);
    assert_eq!(args(&l.pop_back("Queue", "tasks", 1).unwrap()), vec!["RPOP", "Queue:tasks:1"]);
    assert_eq!(args(&l.pop_front("Queue", "tasks", 1).unwrap()), vec!["LPOP", "Queue:tasks:1"]);
    assert_eq!(args(&l.first("Queue", "tasks", 1).unwrap()), vec!["LINDEX", "Queue:tasks:1", "0"]);
    assert_eq!(args(&l.last("Queue", "tasks", 1).unwrap()), vec!["LINDEX", "Queue:tasks:1", "-1"]);
    assert_eq!(args(&l.try_range("Queue", "tasks", 1, 0, 4).unwrap()), vec!["LRANGE", "Queue:tasks:1", "0", "4"]);
    assert_eq!(args(&l.try_iter("Queue", "tasks", 1).unwrap()), vec!["LRANGE", "Queue:tasks:1", "0", "-1"]);
    assert_eq!(args(&l.remove("Queue", "tasks", 1, 7).unwrap()), vec!["LREM", "Queue:tasks:1", "0", "7"]);
    assert!(l.contains(&vec![3, 7, 9], 7));
    assert!(!l.contains(&vec![3, 9], 7));
    assert!(matches!(l.len("Queue", "tasks", 0), Err(OhmerError::NotSaved)));
}

#[test]
fn set_commands() {
    let s: IdSet<Task> = IdSet::new();
    assert_eq!(args(&s.insert("Event", "participants", 2, 9).unwrap()), vec!["SADD", "Event:participants:2", "9"]);
    assert_eq!(args(&s.remove("Event", "participants", 2, 9).unwrap()), vec!["SREM", "Event:participants:2", "9"]);
    assert_eq!(args(&s.contains("Event", "participants", 2, 9).unwrap()), vec!["SISMEMBER", "Event:participants:2", "9"]);
    assert_eq!(args(&s.len("Event", "participants", 2).unwrap()), vec!["SCARD", "Event:participants:2"]);
    assert!(matches!(s.insert("Event", "participants", 0, 9), Err(OhmerError::NotSaved)));
    let q = s.query("Person", "Event", "participants", 2).unwrap();
    assert_eq!(q.class, "Person");
    assert!(matches!(q.set, stal::Set::Key(k) if k == b"Event:participants:2".to_vec()));
}

#[test]
fn reference_and_lookup_commands() {
    let mut r: Reference<Task> = Reference::new();
    assert_eq!(r.id, 0);
    r.set(4);
    assert_eq!(r.id, 4);
    assert_eq!(Reference::<Task>::with_value(6).id, 6);
    assert_eq!(args(&r.get("PhoneNumber")), vec!["HGETALL", "PhoneNumber:4"]);
    assert_eq!(args(&load_command("Server", 12)), vec!["HGETALL", "Server:12"]);
    assert_eq!(args(&with_command("OperativeSystem", "name", "OS X")), vec!["HGET", "OperativeSystem:uniques:name", "OS X"]);
}

#[test]
fn collection_queries_reference_index() {
    let c: Collection<Task> = Collection::new();
    let q = c.all("Tweet", "Tweeter", 1);
    assert_eq!(q.class, "Tweet");
    assert!(matches!(q.set, stal::Set::Key(k) if k == b"Tweet:indices:tweeter_id:1".to_vec()));
}

#[test]
fn iter_hands_out_ids_until_stopped() {
    let mut it: Iter<Task> = Iter::new(vec![4, 5, 6]);
    assert_eq!(it.size_hint(), (3, Some(3)));
    assert_eq!(it.next_id(), Some(4));
    assert_eq!(it.size_hint(), (2, Some(2)));
    it.stop();
    assert_eq!(it.next_id(), None);
    assert_eq!(it.size_hint(), (0, Some(0)));
    let mut it: Iter<Task> = Iter::new(vec![]);
    assert_eq!(it.next_id(), None);
}

#[test]
fn failed_load_ends_iteration() {
    let mut it: Iter<Task> = Iter::new(vec![1, 2, 3]);
    assert_eq!(it.next_id(), Some(1));
    assert_eq!(it.take_loaded::<&str, ()>(Ok("one")), Some("one"));
    assert_eq!(it.next_id(), Some(2));
    assert_eq!(it.take_loaded::<&str, ()>(Err(())), None);
    assert_eq!(it.next_id(), None);
}
