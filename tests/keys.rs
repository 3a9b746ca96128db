use ohmers::keys::{all_key, container_key, counter_key, id_key, index_key, record_key, uniques_key};

#[test]
fn key_naming_scheme() {
    assert_eq!(record_key("Dog", 5), "Dog:5");
    assert_eq!(all_key("Dog"), "Dog:all");
    assert_eq!(id_key("Dog"), "Dog:id");
    assert_eq!(uniques_key("OperativeSystem", "name"), "OperativeSystem:uniques:name");
    assert_eq!(index_key("Dog", "age", "3"), "Dog:indices:age:3");
    assert_eq!(container_key("Queue", "tasks", 1), "Queue:tasks:1");
    assert_eq!(counter_key("Party", 1, "votes"), "Party:1:votes");
}
