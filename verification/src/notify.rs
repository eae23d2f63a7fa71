//! Desktop notifications as the platforms show them: the sound each
//! platform plays for a notification's sound, and the toast document that
//! Windows shows.
use vstd::prelude::*;
use vstd::string::StrSliceExecFns;
use crate::api::PaneId;
use crate::downloads::char_to_string;
use crate::session::NotificationReporting;
use crate::text::{decimal, push_decimal, push_str};
use image::ImageEncoder;

verus! {

/// How urgent a notification is.
#[derive(Clone, Copy, Debug, PartialEq, Eq, Structural)]
pub enum NotificationUrgency {
    Low,
    Normal,
    Critical,
}

/// The sound a notification asks for.
#[derive(Clone, Copy, Debug, PartialEq, Eq, Structural)]
pub enum NotificationSound {
    System,
    Silent,
    Error,
    Warning,
    Info,
    Question,
}

/// An image a program sent with a notification, as RGBA rows.
#[derive(Clone, Debug, PartialEq, Eq)]
pub struct NotificationIcon {
    pub width: u16,
    pub height: u16,
    pub rgba: Vec<u8>,
}

/// A notification that a program in `pane` asked the desktop to show.
#[derive(Clone, Debug, PartialEq, Eq)]
pub struct DesktopNotification {
    pub pane: PaneId,
    pub protocol_id: String,
    pub id: Option<u32>,
    pub title: Option<String>,
    pub body: String,
    pub urgency: NotificationUrgency,
    pub timeout_ms: Option<u32>,
    pub sound: NotificationSound,
    pub icon_name: Option<String>,
    pub icon: Option<NotificationIcon>,
    pub buttons: Vec<String>,
    pub reporting: NotificationReporting,
}

/// The desktops that show notifications differently.
#[derive(Clone, Copy, Debug, PartialEq, Eq, Structural)]
pub enum NotificationPlatform {
    Windows,
    MacOs,
    /// Linux and the other desktops that follow the freedesktop rules.
    Freedesktop,
}

/// The name of the sound a platform plays for `sound`, if it plays one.
pub open spec fn sound_name(sound: NotificationSound, platform: NotificationPlatform) -> Option<
    Seq<char>,
> {
    match platform {
        NotificationPlatform::Windows => match sound {
            NotificationSound::System => Some("Default"@),
            NotificationSound::Silent => None,
            NotificationSound::Error => Some("Alarm"@),
            NotificationSound::Warning => Some("Reminder"@),
            NotificationSound::Info => Some("IM"@),
            NotificationSound::Question => Some("SMS"@),
        },
        NotificationPlatform::MacOs => match sound {
            NotificationSound::System => Some("Basso"@),
            NotificationSound::Error => Some("Basso"@),
            NotificationSound::Silent => None,
            NotificationSound::Warning => Some("Sosumi"@),
            NotificationSound::Info => Some("Glass"@),
            NotificationSound::Question => Some("Ping"@),
        },
        NotificationPlatform::Freedesktop => match sound {
            NotificationSound::System => None,
            NotificationSound::Silent => Some("silent"@),
            NotificationSound::Error => Some("error"@),
            NotificationSound::Warning => Some("warning"@),
            NotificationSound::Info => Some("info"@),
            NotificationSound::Question => Some("question"@),
        },
    }
}

/// The name of the sound `platform` plays for `sound`, if it plays one.
pub fn notification_sound_name(sound: NotificationSound, platform: NotificationPlatform) -> (r:
    Option<&'static str>)
    ensures
        match sound_name(sound, platform) {
            Some(name) => r matches Some(s) && s@ == name,
            None => r is None,
        },
{
    match platform {
        NotificationPlatform::Windows => match sound {
            NotificationSound::System => Some("Default"),
            NotificationSound::Silent => None,
            NotificationSound::Error => Some("Alarm"),
            NotificationSound::Warning => Some("Reminder"),
            NotificationSound::Info => Some("IM"),
            NotificationSound::Question => Some("SMS"),
        },
        NotificationPlatform::MacOs => match sound {
            NotificationSound::System | NotificationSound::Error => Some("Basso"),
            NotificationSound::Silent => None,
            NotificationSound::Warning => Some("Sosumi"),
            NotificationSound::Info => Some("Glass"),
            NotificationSound::Question => Some("Ping"),
        },
        NotificationPlatform::Freedesktop => match sound {
            NotificationSound::System => None,
            NotificationSound::Silent => Some("silent"),
            NotificationSound::Error => Some("error"),
            NotificationSound::Warning => Some("warning"),
            NotificationSound::Info => Some("info"),
            NotificationSound::Question => Some("question"),
        },
    }
}

/// How XML writes `c` inside text and attribute values.
pub open spec fn xml_char(c: char) -> Seq<char> {
    if c == '&' {
        "&amp;"@
    } else if c == '<' {
        "&lt;"@
    } else if c == '>' {
        "&gt;"@
    } else if c == '"' {
        "&quot;"@
    } else if c == '\'' {
        "&apos;"@
    } else {
        seq![c]
    }
}

/// `text` with the five characters that XML reserves written as entities.
pub open spec fn xml_escaped(text: Seq<char>) -> Seq<char>
    decreases text.len(),
{
    if text.len() == 0 {
        Seq::empty()
    } else {
        xml_escaped(text.drop_last()) + xml_char(text.last())
    }
}

/// Appends `text` to `out` with the characters that XML reserves written
/// as entities.
fn push_escaped(out: &mut String, text: &str)
    ensures
        final(out)@ == old(out)@ + xml_escaped(text@),
{
    let n = text.unicode_len();
    let mut i: usize = 0;
    proof {
        assert(text@.take(0) =~= Seq::<char>::empty());
        assert(out@ =~= old(out)@ + xml_escaped(text@.take(0)));
    }
    while i < n
        invariant
            n == text@.len(),
            i <= n,
            out@ == old(out)@ + xml_escaped(text@.take(i as int)),
        decreases n - i,
    {
        let c = text.get_char(i);
        let ghost before = out@;
        if c == '&' {
            push_str(out, "&amp;");
        } else if c == '<' {
            push_str(out, "&lt;");
        } else if c == '>' {
            push_str(out, "&gt;");
        } else if c == '"' {
            push_str(out, "&quot;");
        } else if c == '\'' {
            push_str(out, "&apos;");
        } else {
            let single = char_to_string(c);
            push_str(out, single.as_str());
        }
        proof {
            assert(text@.take(i + 1).drop_last() =~= text@.take(i as int));
            assert(text@.take(i + 1).last() == c);
            assert(out@ =~= before + xml_char(c));
        }
        i = i + 1;
    }
    proof {
        assert(text@.take(n as int) =~= text@);
    }
}

/// `text` with the characters that XML reserves written as entities.
pub fn xml_escape(text: &str) -> (r: String)
    ensures
        r@ == xml_escaped(text@),
{
    let mut out = String::new();
    push_escaped(&mut out, text);
    proof {
        assert(out@ =~= xml_escaped(text@));
    }
    out
}

/// `path` with each backslash turned into a slash.
pub open spec fn forward_slashes(path: Seq<char>) -> Seq<char> {
    path.map_values(|c: char| if c == '\\' { '/' } else { c })
}

/// The actions of a toast, one for each button, numbered from one, from
/// the button `first` on.
pub open spec fn toast_actions(buttons: Seq<Seq<char>>) -> Seq<char>
    decreases buttons.len(),
{
    if buttons.len() == 0 {
        Seq::empty()
    } else {
        toast_actions(buttons.drop_last()) + "<action content=\""@ + xml_escaped(buttons.last())
            + "\" arguments=\""@ + decimal(buttons.len()) + "\"/>"@
    }
}

/// The opening of a toast: how long it stays, whether it insists, and
/// its title (the application's name without one) and body.
pub open spec fn toast_head(
    title: Option<Seq<char>>,
    body: Seq<char>,
    urgency: NotificationUrgency,
    timeout_ms: Option<u32>,
) -> Seq<char> {
    let duration = if timeout_ms matches Some(t) && t > 7000 {
        "long"@
    } else {
        "short"@
    };
    let scenario = if urgency == NotificationUrgency::Critical {
        " scenario=\"reminder\""@
    } else {
        Seq::empty()
    };
    let shown_title = match title {
        Some(t) => t,
        None => "toyoterm"@,
    };
    "<toast duration=\""@ + duration + "\""@ + scenario
        + "><visual><binding template=\"ToastGeneric\">"@ + "<text>"@ + xml_escaped(shown_title)
        + "</text><text>"@ + xml_escaped(body) + "</text>"@
}

/// The image of a toast, for an icon stored at `icon_path`.
pub open spec fn toast_image(icon_path: Option<Seq<char>>) -> Seq<char> {
    match icon_path {
        Some(p) => "<image placement=\"appLogoOverride\" src=\""@ + xml_escaped(
            "file:///"@ + forward_slashes(p),
        ) + "\"/>"@,
        None => Seq::empty(),
    }
}

/// The actions of a toast, if it has buttons.
pub open spec fn toast_action_block(buttons: Seq<Seq<char>>) -> Seq<char> {
    if buttons.len() == 0 {
        Seq::empty()
    } else {
        "<actions>"@ + toast_actions(buttons) + "</actions>"@
    }
}

/// The sound of a toast.
pub open spec fn toast_audio(sound: NotificationSound) -> Seq<char> {
    if sound == NotificationSound::Silent {
        "<audio silent=\"true\"/>"@
    } else {
        match sound_name(sound, NotificationPlatform::Windows) {
            Some(name) => "<audio src=\"ms-winsoundevent:Notification."@ + name + "\"/>"@,
            None => Seq::empty(),
        }
    }
}

/// The toast document that Windows shows for a notification with the
/// given parts; `icon_path` is the file of its icon, if it has one.
pub open spec fn toast_xml(
    title: Option<Seq<char>>,
    body: Seq<char>,
    urgency: NotificationUrgency,
    timeout_ms: Option<u32>,
    sound: NotificationSound,
    buttons: Seq<Seq<char>>,
    icon_path: Option<Seq<char>>,
) -> Seq<char> {
    toast_head(title, body, urgency, timeout_ms) + toast_image(icon_path) + "</binding></visual>"@
        + toast_action_block(buttons) + toast_audio(sound) + "</toast>"@
}

/// The texts of strings.
pub open spec fn label_texts(labels: Seq<String>) -> Seq<Seq<char>> {
    labels.map_values(|s: String| s@)
}

#[verifier::spinoff_prover]
fn push_toast_head(
    xml: &mut String,
    title: &Option<String>,
    body: &str,
    urgency: NotificationUrgency,
    timeout_ms: Option<u32>,
)
    ensures
        final(xml)@ == old(xml)@ + toast_head(
            match title {
                Some(t) => Some(t@),
                None => None,
            },
            body@,
            urgency,
            timeout_ms,
        ),
{
    push_str(xml, "<toast duration=\"");
    let ghost opened = xml@;
    let long = match timeout_ms {
        Some(t) => t > 7000,
        None => false,
    };
    if long {
        push_str(xml, "long");
    } else {
        push_str(xml, "short");
    }
    push_str(xml, "\"");
    if urgency == NotificationUrgency::Critical {
        push_str(xml, " scenario=\"reminder\"");
    }
    let ghost scenario_done = xml@;
    proof {
        let duration = if timeout_ms matches Some(t) && t > 7000 {
            "long"@
        } else {
            "short"@
        };
        let scenario = if urgency == NotificationUrgency::Critical {
            " scenario=\"reminder\""@
        } else {
            Seq::empty()
        };
        assert(scenario_done =~= old(xml)@ + "<toast duration=\""@ + duration + "\""@ + scenario);
    }
    push_str(xml, "><visual><binding template=\"ToastGeneric\">");
    push_str(xml, "<text>");
    match title {
        Some(t) => push_escaped(xml, t.as_str()),
        None => push_escaped(xml, "toyoterm"),
    }
    push_str(xml, "</text><text>");
    push_escaped(xml, body);
    push_str(xml, "</text>");
    proof {
        let t = match title {
            Some(t) => Some(t@),
            None => None,
        };
        assert(xml@ =~= old(xml)@ + toast_head(t, body@, urgency, timeout_ms));
    }
}

fn push_toast_image(xml: &mut String, icon_path: Option<&str>)
    ensures
        final(xml)@ == old(xml)@ + toast_image(
            match icon_path {
                Some(p) => Some(p@),
                None => None,
            },
        ),
{
    match icon_path {
        Some(path) => {
            let mut source = String::new();
            push_str(&mut source, "file:///");
            let n = path.unicode_len();
            let mut i: usize = 0;
            proof {
                assert(path@.take(0) =~= Seq::<char>::empty());
                assert(source@ =~= "file:///"@ + forward_slashes(path@.take(0)));
            }
            while i < n
                invariant
                    n == path@.len(),
                    i <= n,
                    source@ == "file:///"@ + forward_slashes(path@.take(i as int)),
                decreases n - i,
            {
                let c = path.get_char(i);
                let ghost before = source@;
                if c == '\\' {
                    push_str(&mut source, "/");
                    proof {
                        reveal_strlit("/");
                    }
                } else {
                    let single = char_to_string(c);
                    push_str(&mut source, single.as_str());
                }
                proof {
                    assert(forward_slashes(path@.take(i + 1)) =~= forward_slashes(
                        path@.take(i as int),
                    ).push(if c == '\\' { '/' } else { c }));
                    assert(source@ =~= before.push(if c == '\\' { '/' } else { c }));
                }
                i = i + 1;
            }
            proof {
                assert(path@.take(n as int) =~= path@);
            }
            push_str(xml, "<image placement=\"appLogoOverride\" src=\"");
            push_escaped(xml, source.as_str());
            push_str(xml, "\"/>");
            proof {
                assert(xml@ =~= old(xml)@ + toast_image(Some(path@)));
            }
        },
        None => {
            proof {
                assert(xml@ =~= old(xml)@ + toast_image(None));
            }
        },
    }
}

fn push_toast_actions(xml: &mut String, buttons: &Vec<String>)
    ensures
        final(xml)@ == old(xml)@ + toast_action_block(label_texts(buttons@)),
{
    if buttons.len() == 0 {
        proof {
            assert(xml@ =~= old(xml)@ + toast_action_block(label_texts(buttons@)));
        }
        return;
    }
    push_str(xml, "<actions>");
    let ghost open = xml@;
    let mut k: usize = 0;
    proof {
        assert(label_texts(buttons@).take(0) =~= Seq::<Seq<char>>::empty());
        assert(xml@ =~= open + toast_actions(label_texts(buttons@).take(0)));
    }
    while k < buttons.len()
        invariant
            k <= buttons@.len(),
            xml@ == open + toast_actions(label_texts(buttons@).take(k as int)),
        decreases buttons@.len() - k,
    {
        let ghost before = xml@;
        push_str(xml, "<action content=\"");
        push_escaped(xml, buttons[k].as_str());
        push_str(xml, "\" arguments=\"");
        push_decimal(xml, (k as u128) + 1);
        push_str(xml, "\"/>");
        proof {
            let labels = label_texts(buttons@);
            assert(labels.take(k + 1).drop_last() =~= labels.take(k as int));
            assert(labels.take(k + 1).last() == buttons@[k as int]@);
            assert(labels.take(k + 1).len() == k + 1);
            assert(xml@ =~= open + toast_actions(labels.take(k + 1)));
        }
        k = k + 1;
    }
    proof {
        assert(label_texts(buttons@).take(k as int) =~= label_texts(buttons@));
    }
    push_str(xml, "</actions>");
    proof {
        assert(xml@ =~= old(xml)@ + toast_action_block(label_texts(buttons@)));
    }
}

fn push_toast_audio(xml: &mut String, sound: NotificationSound)
    ensures
        final(xml)@ == old(xml)@ + toast_audio(sound),
{
    if sound == NotificationSound::Silent {
        push_str(xml, "<audio silent=\"true\"/>");
    } else {
        match notification_sound_name(sound, NotificationPlatform::Windows) {
            Some(name) => {
                push_str(xml, "<audio src=\"ms-winsoundevent:Notification.");
                push_str(xml, name);
                push_str(xml, "\"/>");
            },
            None => {},
        }
    }
    proof {
        assert(xml@ =~= old(xml)@ + toast_audio(sound));
    }
}

/// Writes the toast document that Windows shows for `request`, with the
/// icon stored at `icon_path`, if any.
pub fn windows_notification_xml(request: &DesktopNotification, icon_path: Option<&str>) -> (r:
    String)
    ensures
        r@ == toast_xml(
            match request.title {
                Some(t) => Some(t@),
                None => None,
            },
            request.body@,
            request.urgency,
            request.timeout_ms,
            request.sound,
            label_texts(request.buttons@),
            match icon_path {
                Some(p) => Some(p@),
                None => None,
            },
        ),
{
    let mut xml = String::new();
    push_toast_head(&mut xml, &request.title, request.body.as_str(), request.urgency, request.timeout_ms);
    push_toast_image(&mut xml, icon_path);
    push_str(&mut xml, "</binding></visual>");
    push_toast_actions(&mut xml, &request.buttons);
    push_toast_audio(&mut xml, request.sound);
    push_str(&mut xml, "</toast>");
    proof {
        assert(xml@ =~= toast_xml(
            match &request.title {
                Some(t) => Some(t@),
                None => None,
            },
            request.body@,
            request.urgency,
            request.timeout_ms,
            request.sound,
            label_texts(request.buttons@),
            match icon_path {
                Some(p) => Some(p@),
                None => None,
            },
        ));
    }
    xml
}

/// What the PNG encoder of the `image` crate makes of an RGBA image of
/// `width` by `height` pixels: the file's bytes, or none where it fails.
pub uninterp spec fn png_encoding(width: u32, height: u32, rgba: Seq<u8>) -> Option<Seq<u8>>;

/// Encodes an RGBA image as PNG with `image::codecs::png::PngEncoder`; the
/// result is named by `png_encoding`. The error's text is the encoder's.
#[verifier::external_body]
fn encode_png(width: u32, height: u32, rgba: &[u8]) -> (r: Result<Vec<u8>, String>)
    requires
        rgba@.len() == width * height * 4,
    ensures
        match r {
            Ok(bytes) => png_encoding(width, height, rgba@) == Some(bytes@),
            Err(_) => png_encoding(width, height, rgba@) is None,
        },
{
    let mut out = Vec::new();
    let encoder = image::codecs::png::PngEncoder::new(&mut out);
    match encoder.write_image(rgba, width, height, image::ExtendedColorType::Rgba8) {
        Ok(()) => Ok(out),
        Err(error) => Err(error.to_string()),
    }
}

/// Why a notification icon cannot be turned into a PNG file.
#[derive(Clone, Debug, PartialEq, Eq)]
pub enum IconImageError {
    /// Its width times height times four does not fit in memory sizes.
    DimensionsOverflow,
    /// It has no pixels, or not four bytes for each of its pixels.
    InvalidDimensions,
    /// The PNG encoder refused it, saying this.
    Encoding(String),
}

impl IconImageError {
    /// What went wrong, in words.
    pub fn message(&self) -> (r: String)
        ensures
            match *self {
                IconImageError::DimensionsOverflow => r@ == "notification icon dimensions overflow"@,
                IconImageError::InvalidDimensions => r@
                    == "notification icon has invalid RGBA dimensions"@,
                IconImageError::Encoding(text) => r@ == text@,
            },
    {
        match self {
            IconImageError::DimensionsOverflow => String::from_str("notification icon dimensions overflow"),
            IconImageError::InvalidDimensions => String::from_str(
                "notification icon has invalid RGBA dimensions",
            ),
            IconImageError::Encoding(text) => text.clone(),
        }
    }
}

/// The PNG file of a notification icon: refused when its size overflows or
/// does not match its bytes, otherwise what the PNG encoder makes of it.
pub fn icon_png(icon: &NotificationIcon) -> (r: Result<Vec<u8>, IconImageError>)
    ensures
        icon.width * icon.height * 4 > usize::MAX ==> r == Err::<Vec<u8>, IconImageError>(
            IconImageError::DimensionsOverflow,
        ),
        icon.width * icon.height * 4 <= usize::MAX ==> (if icon.width == 0 || icon.height == 0
            || icon.rgba@.len() != icon.width * icon.height * 4 {
            r == Err::<Vec<u8>, IconImageError>(IconImageError::InvalidDimensions)
        } else {
            match png_encoding(icon.width as u32, icon.height as u32, icon.rgba@) {
                Some(bytes) => r matches Ok(b) && b@ == bytes,
                None => r matches Err(IconImageError::Encoding(_)),
            }
        }),
{
    let pixels = match (icon.width as usize).checked_mul(icon.height as usize) {
        Some(p) => p,
        None => {
            proof {
                assert(icon.width * icon.height * 4 > usize::MAX) by (nonlinear_arith)
                    requires
                        icon.width * icon.height > usize::MAX,
                ;
            }
            return Err(IconImageError::DimensionsOverflow);
        },
    };
    let expected = match pixels.checked_mul(4) {
        Some(n) => n,
        None => {
            return Err(IconImageError::DimensionsOverflow);
        },
    };
    if icon.width == 0 || icon.height == 0 || icon.rgba.len() != expected {
        return Err(IconImageError::InvalidDimensions);
    }
    match encode_png(icon.width as u32, icon.height as u32, icon.rgba.as_slice()) {
        Ok(bytes) => Ok(bytes),
        Err(text) => Err(IconImageError::Encoding(text)),
    }
}

} // verus!
