use toyoterm::api::PaneId;
use toyoterm::notify::{
    icon_png, IconImageError, NotificationIcon, notification_sound_name, windows_notification_xml, xml_escape, DesktopNotification,
    NotificationPlatform, NotificationSound, NotificationUrgency,
};
use toyoterm::notify::NotificationPlatform::{Freedesktop, MacOs, Windows};
use toyoterm::notify::NotificationSound::{Error, Info, Question, Silent, System, Warning};
use toyoterm::session::NotificationReporting;

fn request(title: Option<&str>, body: &str) -> DesktopNotification {
    DesktopNotification {
        pane: PaneId(1),
        protocol_id: "n1".to_string(),
        id: None,
        title: title.map(|t| t.to_string()),
        body: body.to_string(),
        urgency: NotificationUrgency::Normal,
        timeout_ms: None,
        sound: NotificationSound::Silent,
        icon_name: None,
        icon: None,
        buttons: Vec::new(),
        reporting: NotificationReporting { activation: false, close: false },
    }
}

#[test]
fn each_platform_names_its_notification_sounds() {
    assert_eq!(notification_sound_name(System, Windows), Some("Default"));
    assert_eq!(notification_sound_name(Silent, Windows), None);
    assert_eq!(notification_sound_name(Error, Windows), Some("Alarm"));
    assert_eq!(notification_sound_name(Warning, Windows), Some("Reminder"));
    assert_eq!(notification_sound_name(Info, Windows), Some("IM"));
    assert_eq!(notification_sound_name(Question, Windows), Some("SMS"));
    assert_eq!(notification_sound_name(System, MacOs), Some("Basso"));
    assert_eq!(notification_sound_name(Error, MacOs), Some("Basso"));
    assert_eq!(notification_sound_name(Silent, MacOs), None);
    assert_eq!(notification_sound_name(Warning, MacOs), Some("Sosumi"));
    assert_eq!(notification_sound_name(Info, MacOs), Some("Glass"));
    assert_eq!(notification_sound_name(Question, MacOs), Some("Ping"));
    assert_eq!(notification_sound_name(System, Freedesktop), None);
    assert_eq!(notification_sound_name(Silent, Freedesktop), Some("silent"));
    assert_eq!(notification_sound_name(Question, Freedesktop), Some("question"));
}

#[test]
fn xml_text_escapes_the_reserved_characters() {
    assert_eq!(xml_escape("a<b>&\"c\"'d'"), "a&lt;b&gt;&amp;&quot;c&quot;&apos;d&apos;");
    assert_eq!(xml_escape("&amp;"), "&amp;amp;");
    assert_eq!(xml_escape("plain é"), "plain é");
}

#[test]
fn windows_toasts_carry_every_part_of_the_notification() {
    let minimal = request(None, "hi");
    assert_eq!(
        windows_notification_xml(&minimal, None),
        "<toast duration=\"short\"><visual><binding template=\"ToastGeneric\"><text>toyoterm</text><text>hi</text></binding></visual><audio silent=\"true\"/></toast>"
    );

    let mut full = request(Some("Build <done>"), "All \"good\" & 'fine'");
    full.urgency = NotificationUrgency::Critical;
    full.timeout_ms = Some(8000);
    full.sound = NotificationSound::Warning;
    full.buttons = vec!["Open".to_string(), "Dismiss".to_string()];
    assert_eq!(
        windows_notification_xml(&full, Some("C:\\Users\\me\\icon.png")),
        "<toast duration=\"long\" scenario=\"reminder\"><visual><binding template=\"ToastGeneric\"><text>Build &lt;done&gt;</text><text>All &quot;good&quot; &amp; &apos;fine&apos;</text><image placement=\"appLogoOverride\" src=\"file:///C:/Users/me/icon.png\"/></binding></visual><actions><action content=\"Open\" arguments=\"1\"/><action content=\"Dismiss\" arguments=\"2\"/></actions><audio src=\"ms-winsoundevent:Notification.Reminder\"/></toast>"
    );

    let mut exact = request(Some("t"), "b");
    exact.timeout_ms = Some(7000);
    exact.sound = NotificationSound::System;
    assert_eq!(
        windows_notification_xml(&exact, None),
        "<toast duration=\"short\"><visual><binding template=\"ToastGeneric\"><text>t</text><text>b</text></binding></visual><audio src=\"ms-winsoundevent:Notification.Default\"/></toast>"
    );
}

#[test]
fn notification_icons_become_png_files() {
    let icon = NotificationIcon { width: 2, height: 1, rgba: vec![255, 0, 0, 255, 0, 0, 255, 128] };
    let png = icon_png(&icon).unwrap();
    assert_eq!(&png[..8], &[0x89, b'P', b'N', b'G', 0x0d, 0x0a, 0x1a, 0x0a]);
    assert_ne!(png, icon.rgba);
    let short = NotificationIcon { width: 2, height: 2, rgba: vec![0; 15] };
    assert_eq!(icon_png(&short), Err(IconImageError::InvalidDimensions));
    let empty = NotificationIcon { width: 0, height: 4, rgba: Vec::new() };
    assert_eq!(icon_png(&empty), Err(IconImageError::InvalidDimensions));
    assert_eq!(
        IconImageError::InvalidDimensions.message(),
        "notification icon has invalid RGBA dimensions"
    );
    assert_eq!(
        IconImageError::DimensionsOverflow.message(),
        "notification icon dimensions overflow"
    );
}
