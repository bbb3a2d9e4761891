//! The exact command line handed to the external batch upscaler. Locating,
//! downloading and spawning the executable is left to the surrounding
//! program; the path to it is passed in explicitly.

use crate::cli::Model;
use crate::cli::Scale;
use vstd::prelude::*;

verus! {

/// The command line that makes the upscaler process every image in
/// `input_dir` and write a correspondingly named image into `output_dir`,
/// scaled by `scale`, using `model`. The call processes the whole
/// directory and exits; it is issued once per window, never concurrently.
pub fn upscaler_args(
    executable: &str,
    input_dir: &str,
    output_dir: &str,
    scale: Scale,
    model: Model,
) -> (argv: Vec<String>)
    ensures
        argv@.len() == 9,
        argv@[0]@ == executable@,
        argv@[1]@ == "-s"@,
        argv@[2]@ == match scale {
            Scale::One => "1"@,
            Scale::Two => "2"@,
            Scale::Three => "3"@,
            Scale::Four => "4"@,
        },
        argv@[3]@ == "-i"@,
        argv@[4]@ == input_dir@,
        argv@[5]@ == "-o"@,
        argv@[6]@ == output_dir@,
        argv@[7]@ == "-n"@,
        argv@[8]@ == match model {
            Model::Realesranimevideov3 => "realesr-animevideov3"@,
            Model::Realesrganx4plus => "realesrgan-x4plus"@,
            Model::Realesrganx4plusanime => "realesrgan-x4plus-anime"@,
            Model::Realesrnetx4plus => "realesrnet-x4plus"@,
        },
{
    let mut argv: Vec<String> = Vec::new();
    argv.push(executable.to_owned());
    argv.push("-s".to_owned());
    argv.push(scale.as_str().to_owned());
    argv.push("-i".to_owned());
    argv.push(input_dir.to_owned());
    argv.push("-o".to_owned());
    argv.push(output_dir.to_owned());
    argv.push("-n".to_owned());
    argv.push(model.as_str().to_owned());
    argv
}

} // verus!
