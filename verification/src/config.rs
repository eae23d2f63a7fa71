//! Configuration values with fixed defaults: the ANSI palette, the leader
//! key, where the configuration file lives, and background images.
use vstd::prelude::*;
use vstd::string::StrSliceExecFns;
use vstd::string::StringExecFns;
use crate::text::push_str;

verus! {

/// The leader key and how long it waits for the next key.
#[derive(Clone, Debug, PartialEq, Eq)]
pub struct LeaderConfig {
    pub key: String,
    pub timeout_ms: u64,
}

/// The colours of the window, as `#rrggbb` strings.
#[derive(Clone, Debug, PartialEq, Eq)]
pub struct ColorConfig {
    pub background: String,
    pub foreground: String,
    pub cursor: String,
    pub selection: String,
    /// The configurable ANSI colours, indexes 0 through 15. Indexes 16
    /// through 255 use the standard xterm colour cube and grayscale ramp.
    pub ansi: Vec<String>,
    pub tab_bar: String,
    pub tab_active: String,
    pub tab_inactive: String,
    pub workspace_bar: String,
    pub status_bar: String,
    pub pane_border: String,
    pub search_match: String,
    pub search_match_active: String,
}

/// The sixteen default ANSI colours, in order.
pub open spec fn ansi_palette() -> Seq<Seq<char>> {
    seq![
        "#000000"@,
        "#cd0000"@,
        "#00cd00"@,
        "#cdcd00"@,
        "#0000ee"@,
        "#cd00cd"@,
        "#00cdcd"@,
        "#e5e5e5"@,
        "#7f7f7f"@,
        "#ff0000"@,
        "#00ff00"@,
        "#ffff00"@,
        "#5c5cff"@,
        "#ff00ff"@,
        "#00ffff"@,
        "#ffffff"@,
    ]
}

/// The default ANSI colours.
pub fn default_ansi_colors() -> (r: Vec<String>)
    ensures
        r@.map_values(|s: String| s@) == ansi_palette(),
{
    let mut colors: Vec<String> = Vec::new();
    colors.push(String::from_str("#000000"));
    colors.push(String::from_str("#cd0000"));
    colors.push(String::from_str("#00cd00"));
    colors.push(String::from_str("#cdcd00"));
    colors.push(String::from_str("#0000ee"));
    colors.push(String::from_str("#cd00cd"));
    colors.push(String::from_str("#00cdcd"));
    colors.push(String::from_str("#e5e5e5"));
    colors.push(String::from_str("#7f7f7f"));
    colors.push(String::from_str("#ff0000"));
    colors.push(String::from_str("#00ff00"));
    colors.push(String::from_str("#ffff00"));
    colors.push(String::from_str("#5c5cff"));
    colors.push(String::from_str("#ff00ff"));
    colors.push(String::from_str("#00ffff"));
    colors.push(String::from_str("#ffffff"));
    proof {
        assert(colors@.map_values(|s: String| s@) =~= ansi_palette());
    }
    colors
}

/// `base` joined with the relative path `child`, separated by one slash.
pub open spec fn join_path(base: Seq<char>, child: Seq<char>) -> Seq<char> {
    if base.len() == 0 || base.last() == '/' {
        base + child
    } else {
        base + seq!['/'] + child
    }
}

/// Where the configuration file lies below a home directory.
pub open spec fn config_path_below(home: Seq<char>) -> Seq<char> {
    join_path(join_path(join_path(home, ".config"@), "toyoterm"@), "config.rb"@)
}

fn join_path_exec(base: &String, child: &str) -> (r: String)
    ensures
        r@ == join_path(base@, child@),
{
    let mut out = base.clone();
    let n = base.as_str().unicode_len();
    if n > 0 && base.as_str().get_char(n - 1) != '/' {
        push_str(&mut out, "/");
        proof {
            reveal_strlit("/");
        }
    }
    push_str(&mut out, child);
    proof {
        assert(out@ =~= join_path(base@, child@));
    }
    out
}

/// The configuration file below the home directory `home`, with `/`
/// separating directories.
pub fn config_path_for_home(home: &str) -> (r: String)
    ensures
        r@ == config_path_below(home@),
{
    let base = home.to_owned();
    let a = join_path_exec(&base, ".config");
    let b = join_path_exec(&a, "toyoterm");
    join_path_exec(&b, "config.rb")
}

/// The home directory that the environment names: none where the
/// variable is missing or empty.
pub fn home_directory_from_env(home: Option<String>) -> (r: Option<String>)
    ensures
        r == match home {
            Some(path) => if path@.len() > 0 {
                Some(path)
            } else {
                None
            },
            None => None,
        },
{
    match home {
        Some(path) => {
            if path.as_str().unicode_len() > 0 {
                Some(path)
            } else {
                None
            }
        },
        None => None,
    }
}

/// The configuration file, given the home directory variable of the
/// environment (`HOME`, or `USERPROFILE` on Windows).
pub fn default_config_path(home: Option<String>) -> (r: Option<String>)
    ensures
        r matches Some(path) ==> home matches Some(h) && h@.len() > 0 && path@ == config_path_below(
            h@,
        ),
        r is None ==> !(home matches Some(h) && h@.len() > 0),
{
    match home_directory_from_env(home) {
        Some(home) => Some(config_path_for_home(home.as_str())),
        None => None,
    }
}

/// The widest and tallest background image accepted, within the largest
/// texture that every graphics backend supports.
pub const MAX_BACKGROUND_SIDE: u32 = 8192;

/// The most memory that decoding a background image may take.
pub const MAX_BACKGROUND_ALLOC: u64 = 268435456;

#[verifier::external_type_specification]
#[verifier::external_body]
pub struct ExImageError(image::ImageError);

/// What decoding `bytes` as an image, within `max_side` pixels each way and
/// `max_alloc` bytes of memory, gives as 8-bit RGBA: the width, the height
/// and the pixels, row by row; none where the bytes are no image of a known
/// format or break a limit.
pub uninterp spec fn decoded_rgba(bytes: Seq<u8>, max_side: u32, max_alloc: u64) -> Option<
    (u32, u32, Seq<u8>),
>;

/// Decodes `bytes` with `image::ImageReader`, guessing the format from the
/// bytes, under limits on the side and on memory, and converts the image to
/// RGBA. Its result is named by `decoded_rgba`; the image crate documents
/// the limits on width and height as strict, so a decoded image keeps them.
#[verifier::external_body]
fn decode_rgba(bytes: &[u8], max_side: u32, max_alloc: u64) -> (r: Result<
    (u32, u32, Vec<u8>),
    image::ImageError,
>)
    ensures
        r is Ok <==> decoded_rgba(bytes@, max_side, max_alloc) is Some,
        r matches Ok((width, height, pixels)) ==> decoded_rgba(bytes@, max_side, max_alloc) == Some(
            (width, height, pixels@),
        ) && width <= max_side && height <= max_side,
{
    let cursor = std::io::Cursor::new(bytes);
    let mut reader = image::ImageReader::new(cursor).with_guessed_format().map_err(
        image::ImageError::IoError,
    )?;
    let mut limits = image::Limits::default();
    limits.max_image_width = Some(max_side);
    limits.max_image_height = Some(max_side);
    limits.max_alloc = Some(max_alloc);
    reader.limits(limits);
    let pixels = reader.decode()?.into_rgba8();
    Ok((pixels.width(), pixels.height(), pixels.into_raw()))
}

/// The text of an image error, as the image crate displays it.
#[verifier::external_body]
fn image_error_text(error: &image::ImageError) -> String {
    error.to_string()
}

/// A decoded background image, shared with the renderer.
#[derive(Clone, Debug, PartialEq, Eq)]
pub struct BackgroundImage {
    pub path: String,
    pub width: u32,
    pub height: u32,
    pub rgba: Vec<u8>,
}

impl BackgroundImage {
    /// Decodes the contents `bytes` of the file at `path`, within the size
    /// and memory limits for background images.
    pub fn decode(path: String, bytes: &[u8]) -> (r: Result<BackgroundImage, String>)
        ensures
            r is Ok <==> decoded_rgba(bytes@, MAX_BACKGROUND_SIDE, MAX_BACKGROUND_ALLOC) is Some,
            r matches Ok(image) ==> image.path == path && decoded_rgba(
                bytes@,
                MAX_BACKGROUND_SIDE,
                MAX_BACKGROUND_ALLOC,
            ) == Some((image.width, image.height, image.rgba@)) && image.width
                <= MAX_BACKGROUND_SIDE && image.height <= MAX_BACKGROUND_SIDE,
    {
        match decode_rgba(bytes, MAX_BACKGROUND_SIDE, MAX_BACKGROUND_ALLOC) {
            Ok((width, height, rgba)) => Ok(BackgroundImage { path, width, height, rgba }),
            Err(error) => Err(image_error_text(&error)),
        }
    }
}

} // verus!
