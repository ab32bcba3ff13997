use vstd::prelude::*;
use vstd::string::*;

verus! {

/// The extension that marks a file as a vector image.
pub open spec fn svg_extension() -> Seq<char> {
    seq!['.', 's', 'v', 'g']
}

/// `file_name` is the name of a vector image: a non-empty stem followed by
/// the `.svg` extension.
pub open spec fn is_image_file(file_name: Seq<char>) -> bool {
    file_name.len() > 4 && file_name.subrange(file_name.len() - 4, file_name.len() as int)
        == svg_extension()
}

/// The image name of a file: its name with the `.svg` extension taken off,
/// or `None` for a file that is not a vector image.
pub fn image_name(file_name: &str) -> (r: Option<String>)
    ensures
        r is Some <==> is_image_file(file_name@),
        r matches Some(name) ==> name@ == file_name@.subrange(0, file_name@.len() - 4),
{
    let n = file_name.unicode_len();
    if n <= 4 {
        return None;
    }
    let dot = file_name.get_char(n - 4);
    let s = file_name.get_char(n - 3);
    let v = file_name.get_char(n - 2);
    let g = file_name.get_char(n - 1);
    let ghost ext = file_name@.subrange(n - 4, n as int);
    if dot == '.' && s == 's' && v == 'v' && g == 'g' {
        assert(ext =~= svg_extension());
        Some(file_name.substring_char(0, n - 4).to_owned())
    } else {
        assert(ext[0] == dot && ext[1] == s && ext[2] == v && ext[3] == g);
        assert(ext != svg_extension());
        None
    }
}

/// Scale and canvas bound of one pass.
#[derive(Clone, Copy, Debug, PartialEq, Eq, Structural)]
pub struct PassConfig {
    pub scale: u32,
    pub width: i32,
    pub height: i32,
}

/// Why no pass can be set up.
#[derive(Clone, Copy, Debug, PartialEq, Eq, Structural)]
pub enum SetupError {
    /// No input directory was given.
    NoInputs,
    /// The doubled canvas bound of the second pass does not fit in `i32`.
    BoundTooLarge,
}

/// The passes for `n_inputs` input directories and a canvas bound of
/// `width` by `height`: scale 1 with the bound, then scale 2 with the
/// doubled bound.
pub fn pass_configs(n_inputs: usize, width: i32, height: i32) -> (r: Result<Vec<PassConfig>, SetupError>)
    ensures
        (r matches Err(SetupError::NoInputs)) <==> n_inputs == 0,
        (r matches Err(SetupError::BoundTooLarge)) <==> (n_inputs > 0 && !(i32::MIN <= 2 * width
            <= i32::MAX && i32::MIN <= 2 * height <= i32::MAX)),
        r matches Ok(v) ==> v@ == seq![
            PassConfig { scale: 1, width, height },
            PassConfig { scale: 2, width: (2 * width) as i32, height: (2 * height) as i32 },
        ],
{
    if n_inputs == 0 {
        return Err(SetupError::NoInputs);
    }
    let w2 = match width.checked_mul(2) {
        Some(w) => w,
        None => {
            return Err(SetupError::BoundTooLarge);
        },
    };
    let h2 = match height.checked_mul(2) {
        Some(h) => h,
        None => {
            return Err(SetupError::BoundTooLarge);
        },
    };
    let mut v: Vec<PassConfig> = Vec::new();
    v.push(PassConfig { scale: 1, width, height });
    v.push(PassConfig { scale: 2, width: w2, height: h2 });
    assert(v@ =~= seq![
        PassConfig { scale: 1, width, height },
        PassConfig { scale: 2, width: (2 * width) as i32, height: (2 * height) as i32 },
    ]);
    Ok(v)
}

} // verus!
