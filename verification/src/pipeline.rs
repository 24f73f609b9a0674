//! The whole run on a decoded image, and its configuration.

use crate::blocks::{get_rbg_averages, pixelated};
use crate::buffer::PixelBuffer;
use crate::trim::{lemma_trimmed_extent, resize_image, trimmed, trimmed_extent};
use vstd::prelude::*;

verus! {

/// File that is read when no input path is given.
pub const DEFAULT_INPUT: &'static str = "dog.jpg";

/// File that is written when no output path is given.
pub const DEFAULT_OUTPUT: &'static str = "out.jpg";

/// Side length of a block, in pixels, when none is configured.
pub const DEFAULT_RATIO: u32 = 25;

/// Why a configuration is refused.
#[derive(Clone, Copy, Debug, PartialEq, Eq)]
pub enum PixelateError {
    /// The block size is zero: no block can be cut.
    ZeroRatio,
}

impl PixelateError {
    /// The text of [`PixelateError::message`].
    pub open spec fn message_text(self) -> Seq<char> {
        match self {
            PixelateError::ZeroRatio => "the block size (ratio) must be at least 1"@,
        }
    }

    /// A sentence for the user.
    pub fn message(&self) -> (text: String)
        ensures
            text@ == self.message_text(),
    {
        match self {
            PixelateError::ZeroRatio => "the block size (ratio) must be at least 1".to_owned(),
        }
    }
}

/// What a run needs to know: where to read, where to write, and the side
/// length of a block.
#[derive(Clone, Debug, PartialEq, Eq)]
pub struct Config {
    pub input_path: String,
    pub output_path: String,
    pub ratio: u32,
}

impl Config {
    /// The configuration that a command line asks for. `args[0]` names the
    /// program; `args[1]`, where present, is the input path and `args[2]`,
    /// where present, the output path. The block size is the default one.
    pub fn from_args(args: &Vec<String>) -> (config: Config)
        ensures
            config.input_path@ == (if args@.len() > 1 {
                args@[1]@
            } else {
                DEFAULT_INPUT@
            }),
            config.output_path@ == (if args@.len() > 2 {
                args@[2]@
            } else {
                DEFAULT_OUTPUT@
            }),
            config.ratio == DEFAULT_RATIO,
    {
        let mut config = Config::default();
        if args.len() > 1 {
            config.input_path = args[1].clone();
        }
        if args.len() > 2 {
            config.output_path = args[2].clone();
        }
        config
    }

    /// Accepts every block size but zero.
    pub fn validate(&self) -> (res: Result<(), PixelateError>)
        ensures
            res is Err <==> self.ratio == 0,
            res is Err ==> res == Err::<(), PixelateError>(PixelateError::ZeroRatio),
    {
        if self.ratio == 0 {
            Err(PixelateError::ZeroRatio)
        } else {
            Ok(())
        }
    }
}

impl Default for Config {
    /// The default paths and the default block size.
    fn default() -> (config: Config)
        ensures
            config.input_path@ == DEFAULT_INPUT@,
            config.output_path@ == DEFAULT_OUTPUT@,
            config.ratio == DEFAULT_RATIO,
    {
        Config {
            input_path: DEFAULT_INPUT.to_owned(),
            output_path: DEFAULT_OUTPUT.to_owned(),
            ratio: DEFAULT_RATIO,
        }
    }
}

/// Trims `image` to whole blocks of side `ratio` and pixelates the result.
/// A block size of zero is refused. A block size above both dimensions
/// trims the image to nothing.
pub fn pixelate(image: PixelBuffer, ratio: u32) -> (res: Result<PixelBuffer, PixelateError>)
    requires
        image.wf(),
    ensures
        res is Err <==> ratio == 0,
        res is Err ==> res == Err::<PixelBuffer, PixelateError>(PixelateError::ZeroRatio),
        res matches Ok(out) ==> {
            &&& out.wf()
            &&& out@ == pixelated(trimmed(image@, ratio as nat), ratio as nat)
            &&& out@.width == trimmed_extent(image@.width, ratio as nat)
            &&& out@.height == trimmed_extent(image@.height, ratio as nat)
            &&& ratio > image@.width && ratio > image@.height ==> out@.width == 0 && out@.height
                == 0 && out@.data.len() == 0
        },
{
    if ratio == 0 {
        return Err(PixelateError::ZeroRatio);
    }
    proof {
        lemma_trimmed_extent(image@.width, ratio as nat);
        lemma_trimmed_extent(image@.height, ratio as nat);
    }
    let resized_image = resize_image(image, ratio);
    let out = get_rbg_averages(&resized_image, ratio);
    assert(out@.width == 0 ==> out@.data.len() == 0);
    Ok(out)
}

} // verus!
