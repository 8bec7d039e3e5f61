use vstd::prelude::*;

use crate::transport::{Transport, TransportError};

verus! {

/// A data visualizer plugin: it renders some quantity onto the keyboard
/// through a [`Transport`].
pub trait Visualizer {
    fn initialize(&mut self) -> Result<(), TransportError>;

    fn get_id(&self) -> String;

    fn get_name(&self) -> String;

    fn get_description(&self) -> String;

    fn render<T: Transport>(&self, transport: &mut T) -> Result<(), TransportError>;
}

/// Illuminates a certain percentage of the keyboard in one color.
#[derive(Debug, Clone, Copy, PartialEq, Eq, Structural)]
pub struct Percentage {
    percentage: u8,
    color: u32,
}

impl Percentage {
    /// The fraction shown, in percent.
    pub closed spec fn percentage_spec(&self) -> u8 {
        self.percentage
    }

    /// The fill color, as an RGBA word.
    pub closed spec fn color_spec(&self) -> u32 {
        self.color
    }

    /// A fresh visualizer: nothing shown yet, opaque blue.
    pub fn new() -> (r: Percentage)
        ensures
            r.percentage_spec() == 0,
            r.color_spec() == 0xFF0000FF,
    {
        Percentage { percentage: 0, color: 0xFF0000FF }
    }
}

impl Visualizer for Percentage {
    fn initialize(&mut self) -> Result<(), TransportError> {
        Ok(())
    }

    fn get_id(&self) -> String {
        "percentage".to_owned()
    }

    fn get_name(&self) -> String {
        "Percentage".to_owned()
    }

    fn get_description(&self) -> String {
        "Illuminates a certain percentage of the keyboard".to_owned()
    }

    fn render<T: Transport>(&self, _transport: &mut T) -> Result<(), TransportError> {
        Ok(())
    }
}

} // verus!
