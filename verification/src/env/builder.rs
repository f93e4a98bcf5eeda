//! The windows that an environment is to be built with.

use vstd::prelude::*;

verus! {

/// What is asked of a window.
pub struct WindowSpec {
    pub title: Seq<char>,
    pub width: nat,
    pub height: nat,
    pub resizable: bool,
}

/// What is asked of a window, as executable code holds it.
#[derive(Clone, Copy)]
pub struct WindowConfig {
    title: &'static str,
    width: u32,
    height: u32,
    resizable: bool,
}

impl View for WindowConfig {
    type V = WindowSpec;

    closed spec fn view(&self) -> WindowSpec {
        WindowSpec {
            title: self.title@,
            width: self.width as nat,
            height: self.height as nat,
            resizable: self.resizable,
        }
    }
}

impl WindowConfig {
    pub fn title(&self) -> (title: &'static str)
        ensures
            title@ == self@.title,
    {
        self.title
    }

    pub fn width(&self) -> (width: u32)
        ensures
            width == self@.width,
    {
        self.width
    }

    pub fn height(&self) -> (height: u32)
        ensures
            height == self@.height,
    {
        self.height
    }

    pub fn resizable(&self) -> (resizable: bool)
        ensures
            resizable == self@.resizable,
    {
        self.resizable
    }
}

/// Collects what is asked of the windows of an environment.
pub struct EnvironmentBuilder {
    windows: Vec<WindowConfig>,
}

impl View for EnvironmentBuilder {
    type V = Seq<WindowSpec>;

    closed spec fn view(&self) -> Seq<WindowSpec> {
        Seq::new(self.windows@.len(), |i: int| self.windows@[i]@)
    }
}

impl EnvironmentBuilder {
    /// A builder with no window asked for.
    pub fn new() -> (builder: EnvironmentBuilder)
        ensures
            builder@ == Seq::<WindowSpec>::empty(),
    {
        let builder = EnvironmentBuilder { windows: Vec::new() };
        assert(builder@ =~= Seq::<WindowSpec>::empty());
        builder
    }

    /// Asks for one more window, behind those asked for before.
    pub fn window(
        &mut self,
        title: &'static str,
        width: u32,
        height: u32,
        resizable: bool,
    ) -> (builder: &mut EnvironmentBuilder)
        ensures
            builder@ == old(self)@.push(
                WindowSpec {
                    title: title@,
                    width: width as nat,
                    height: height as nat,
                    resizable,
                },
            ),
            *final(self) == *final(builder),
    {
        self.windows.push(WindowConfig { title, width, height, resizable });
        assert(self@ =~= old(self)@.push(
            WindowSpec { title: title@, width: width as nat, height: height as nat, resizable },
        ));
        self
    }

    /// The windows asked for, in order.
    pub fn windows(&self) -> (windows: &Vec<WindowConfig>)
        ensures
            windows@.len() == self@.len(),
            forall|i: int| 0 <= i < windows@.len() ==> (#[trigger] windows@[i])@ == self@[i],
    {
        &self.windows
    }
}

} // verus!
