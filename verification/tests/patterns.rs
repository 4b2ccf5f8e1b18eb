use rustlab::decorator_pattern::{ExcitedGreeting, Greeting, HelloWorld};
use rustlab::state_machines::{Event, State};
use rustlab::waterfall::{task1, task2, task3};

#[test]
fn waterfall_test_main() {
    let output1 = task1();
    assert_eq!(output1, "Task 1 completed");
    let output2 = task2(output1);
    let result = task3(output2);
    assert_eq!(result, "Task 1 completed Task 2 completed Task 3 completed");
    assert_eq!(task2(String::from("x")), "x Task 2 completed");
}

#[test]
fn decorator_pattern_test_main() {
    assert_eq!(HelloWorld.greet(), "Hello, world!");
    let hello = ExcitedGreeting { inner: HelloWorld };
    assert_eq!(hello.greet(), "Hello, world!I'm so excited to be in Rust!");
}

#[test]
fn state_machines_test_main() {
    let mut state = State::On;
    state = state.transition(Event::SwitchOff);
    assert_eq!(state, State::On);
    state = state.transition(Event::SwitchOn);
    assert_eq!(state, State::Off);
    state = state.transition(Event::SwitchOn);
    assert_eq!(state, State::Off);
    assert_eq!(state.transition(Event::SwitchOff), State::On);
}
