use psd2ugui::photoshop::{host_platform_from, map_macos_driver_failure, validate_macos_photoshop_path, HostPlatform};

#[test]
fn host_platform_selection_supports_windows_and_macos() {
    assert_eq!(host_platform_from("windows"), HostPlatform::Windows);
    assert_eq!(host_platform_from("macos"), HostPlatform::MacOs);
    assert_eq!(host_platform_from("linux"), HostPlatform::Unsupported);
}

#[test]
fn macos_permission_denial_is_mapped_to_actionable_message() {
    let message = map_macos_driver_failure("", "execution error: Not authorized to send Apple events to Adobe Photoshop. (-1743)");
    assert!(message.contains("Automation permission was denied"));
}

#[test]
fn macos_photoshop_path_requires_app_bundle() {
    let bundle_path = "/tmp/Adobe Photoshop 2025";
    let error = validate_macos_photoshop_path(bundle_path, true, "").expect_err("non-.app path should be rejected");
    assert!(error.message().contains(".app bundle"));
}
