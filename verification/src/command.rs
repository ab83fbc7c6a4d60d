//! The command layer's decision core: which work a command asks for, and
//! whether its arguments can be worked with at all.
//!
//! Parsing the command line, reading images and writing outputs are the
//! driver's business; this module owns the one part of the command layer that
//! is pure logic, the admission check every handler makes before touching a
//! file. A command that passes [`Command::run`] is safe to hand to the
//! driver; one that does not is rejected with the reason, before any image is
//! opened.

use vstd::prelude::*;

use crate::error::TaskError;

verus! {

/// One invocation of the tool: the selected operation.
///
/// The pixel work each variant stands for (resizing, recoloring, alpha
/// removal, format conversion) is delegated to the codec library by the
/// driver; the registry and this layer never see a pixel.
#[derive(Debug, PartialEq)]
pub enum Command {
    /// Convert each image to the given format, or to the output's format.
    Convert { format: Option<String> },
    /// Resize each image to `width` x `height` pixels.
    Resize { width: u32, height: u32 },
    /// Show information about each image.
    Info,
    /// Convert a whole batch into an output directory.
    Batch,
    /// Remove the background from each image.
    Transparentize,
    /// Modify each image's color type.
    Recolor,
    /// Print shell completions.
    Completions,
}

/// The arguments every command shares: the selected command, the images to
/// work on, how many to process at once, and where output goes.
#[derive(Debug, PartialEq)]
pub struct CommandArgs {
    pub command: Command,
    pub parallel_images: u32,
    pub images: Vec<String>,
    pub output: Option<String>,
}

impl Command {
    /// The arguments admit this command: there is at least one image to work
    /// on (completions need none), a resize aims at nonzero dimensions, and a
    /// batch has an output directory to write into.
    pub open spec fn admissible(&self, args: &CommandArgs) -> bool {
        &&& (self is Completions || args.images@.len() > 0)
        &&& (self matches Command::Resize { width, height } ==> width > 0 && height > 0)
        &&& (self is Batch ==> args.output is Some)
    }

    /// The reason the arguments are rejected; meaningful only when they are
    /// not admissible. The checks are reported in a fixed order: missing
    /// images first, then zero dimensions, then the missing output directory.
    pub open spec fn rejection(&self, args: &CommandArgs) -> Seq<char> {
        if !(self is Completions || args.images@.len() > 0) {
            "no input images"@
        } else if !(self matches Command::Resize { width, height } ==> width > 0 && height > 0) {
            "zero target dimensions"@
        } else {
            "batch conversion needs an output directory"@
        }
    }

    /// Admits or rejects this command for the given arguments.
    ///
    /// `Ok` exactly when the arguments are admissible; otherwise the error
    /// carries the first failing check's reason. The driver runs the
    /// command's I/O handler only after this gate says `Ok`.
    pub fn run(&self, args: &CommandArgs) -> (r: Result<(), TaskError>)
        ensures
            r is Ok <==> self.admissible(args),
            r matches Err(e) ==> e.message_view() == self.rejection(args),
    {
        let needs_images = !matches!(self, Command::Completions);
        if needs_images && args.images.len() == 0 {
            return Err(TaskError::SingleError("no input images".to_string()));
        }
        match self {
            Command::Resize { width, height } => {
                if *width == 0 || *height == 0 {
                    return Err(TaskError::SingleError("zero target dimensions".to_string()));
                }
            }
            Command::Batch => {
                if args.output.is_none() {
                    return Err(TaskError::SingleError(
                        "batch conversion needs an output directory".to_string(),
                    ));
                }
            }
            _ => {}
        }
        Ok(())
    }
}

} // verus!
