//! The demo application's window settings.

use vstd::prelude::*;
use crate::text::{str_chars, chars_to_string};

verus! {

/// The demo application: a window that shows one rendered diagram.
pub struct DemoApp {
    title: String,
}

impl View for DemoApp {
    type V = Seq<char>;

    /// The window title.
    closed spec fn view(&self) -> Seq<char> {
        self.title@
    }
}

impl DemoApp {
    /// A demo application with the given window title; the size is chosen by the window system.
    pub fn new(title: &str, width: u32, height: u32) -> (r: Self)
        ensures
            r@ == title@,
    {
        let v = str_chars(title);
        DemoApp { title: chars_to_string(&v) }
    }

    /// Window title.
    pub fn title(&self) -> (r: &str)
        ensures
            r@ == self@,
    {
        self.title.as_str()
    }
}

} // verus!
