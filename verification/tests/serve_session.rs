use librojo::serve_session::ServeSessionError;

#[test]
fn serve_session_errors_show_their_source() {
    assert_eq!(ServeSessionError::Io { source: "disk gone".into() }.message(), "disk gone");
    assert_eq!(ServeSessionError::Project { source: "bad project".into() }.message(), "bad project");
    assert_eq!(ServeSessionError::Other { source: "other".into() }.message(), "other");
}
