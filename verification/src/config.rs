use vstd::prelude::*;

verus! {

/// Layout settings handed to the renderer: the line budget, the width of one
/// indentation level, and whether indentation uses tab characters.
pub struct PrinterConfig {
    pub max_width: usize,
    pub indent: usize,
    pub use_tabs: bool,
}

impl PrinterConfig {
    /// A configuration with the given width and indent, indenting with spaces.
    pub fn new(max_width: usize, indent: usize) -> (c: PrinterConfig)
        ensures
            c.max_width == max_width,
            c.indent == indent,
            !c.use_tabs,
    {
        PrinterConfig { max_width, indent, use_tabs: false }
    }
}

impl Default for PrinterConfig {
    /// Width 80, four spaces per level, no tabs.
    fn default() -> (c: PrinterConfig)
        ensures
            c.max_width == 80,
            c.indent == 4,
            !c.use_tabs,
    {
        PrinterConfig { max_width: 80, indent: 4, use_tabs: false }
    }
}

} // verus!
