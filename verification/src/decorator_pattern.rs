//! A greeting, and a wrapper that adds to whatever greeting it wraps.

use vstd::prelude::*;
use vstd::string::StringExecFns;

verus! {

/// Something that greets.
pub trait Greeting {
    /// The text of the greeting.
    spec fn greeting(&self) -> Seq<char>;

    fn greet(&self) -> (text: String)
        ensures
            text@ == self.greeting(),
    ;
}

/// The plain greeting.
pub struct HelloWorld;

impl Greeting for HelloWorld {
    open spec fn greeting(&self) -> Seq<char> {
        "Hello, world!"@
    }

    fn greet(&self) -> (text: String) {
        String::from_str("Hello, world!")
    }
}

/// Wraps a greeting and adds an excited sentence behind it.
pub struct ExcitedGreeting<T> {
    pub inner: T,
}

impl<T> ExcitedGreeting<T> {
    /// The wrapped greeting followed by the excited sentence.
    pub fn greet(&self) -> (text: String) where T: Greeting
        ensures
            text@ == self.inner.greeting() + "I'm so excited to be in Rust!"@,
    {
        let mut greeting = self.inner.greet();
        greeting.append("I'm so excited to be in Rust!");
        greeting
    }
}

} // verus!
