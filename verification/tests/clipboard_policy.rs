use flashpaste::clipboard_policy::{decide_has_image, HasImageDecision, HasImagePolicy};

#[test]
fn wayland_image_wins_when_wayland_answers() {
    assert_eq!(
        decide_has_image("text/plain\nimage/png", "", "text/plain"),
        HasImageDecision {
            has_image: true,
            policy: HasImagePolicy::WaylandAuthoritative,
        }
    );
}

#[test]
fn stale_x11_image_is_ignored_when_wayland_has_text() {
    assert_eq!(
        decide_has_image(
            "text/plain",
            "https://github.com/recodeee/flashpaste",
            "TARGETS\nimage/png",
        ),
        HasImageDecision {
            has_image: false,
            policy: HasImagePolicy::WaylandAuthoritativeStaleX11Ignored,
        }
    );
}

#[test]
fn x11_image_is_used_only_when_wayland_is_silent() {
    assert_eq!(
        decide_has_image("", "", "TARGETS,image/png"),
        HasImageDecision {
            has_image: true,
            policy: HasImagePolicy::X11FallbackWaylandSilent,
        }
    );
}
