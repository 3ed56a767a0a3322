use image_bridge::launch::{reveal_command, TargetOs};

#[test]
fn file_manager_per_platform() {
    let c = reveal_command(TargetOs::MacOs, "/x".to_string());
    assert_eq!(c.program, "open");
    assert_eq!(c.args, vec!["/x".to_string()]);
    assert_eq!(reveal_command(TargetOs::Windows, "C:\\x".to_string()).program, "explorer");
    assert_eq!(reveal_command(TargetOs::Linux, "/x".to_string()).program, "xdg-open");
}
