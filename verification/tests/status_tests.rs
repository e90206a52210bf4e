use gemini_client::status::{
    ClientCertificateRequired, Input, PermanentFailure, Redirect, Status, TemporaryFailure,
};

#[test]
fn status_accepts_exactly_the_defined_codes() {
    let valid = [
        10u8, 11, 20, 30, 31, 40, 41, 42, 43, 44, 50, 51, 52, 53, 59, 60, 61, 62,
    ];
    for code in 0u8..=255 {
        let r = Status::try_from(code);
        if valid.contains(&code) {
            assert!(r.is_ok(), "code {} should be accepted", code);
        } else {
            let e = r.unwrap_err();
            assert_eq!(e.0, code);
        }
    }
}

#[test]
fn status_maps_each_code_to_its_category() {
    assert_eq!(Status::try_from(10).unwrap(), Status::Input(Input::Input));
    assert_eq!(Status::try_from(11).unwrap(), Status::Input(Input::Sensitive));
    assert_eq!(Status::try_from(20).unwrap(), Status::Success);
    assert_eq!(
        Status::try_from(30).unwrap(),
        Status::Redirect(Redirect::Temporary)
    );
    assert_eq!(
        Status::try_from(31).unwrap(),
        Status::Redirect(Redirect::Permanent)
    );
    assert_eq!(
        Status::try_from(40).unwrap(),
        Status::TemporaryFailure(TemporaryFailure::TemporaryFailure)
    );
    assert_eq!(
        Status::try_from(41).unwrap(),
        Status::TemporaryFailure(TemporaryFailure::ServerUnavailable)
    );
    assert_eq!(
        Status::try_from(42).unwrap(),
        Status::TemporaryFailure(TemporaryFailure::CgiError)
    );
    assert_eq!(
        Status::try_from(43).unwrap(),
        Status::TemporaryFailure(TemporaryFailure::ProxyError)
    );
    assert_eq!(
        Status::try_from(44).unwrap(),
        Status::TemporaryFailure(TemporaryFailure::SlowDown)
    );
    assert_eq!(
        Status::try_from(50).unwrap(),
        Status::PermanentFailure(PermanentFailure::PermanentFailure)
    );
    assert_eq!(
        Status::try_from(51).unwrap(),
        Status::PermanentFailure(PermanentFailure::NotFound)
    );
    assert_eq!(
        Status::try_from(52).unwrap(),
        Status::PermanentFailure(PermanentFailure::Gone)
    );
    assert_eq!(
        Status::try_from(53).unwrap(),
        Status::PermanentFailure(PermanentFailure::ProxyRequestRefused)
    );
    assert_eq!(
        Status::try_from(59).unwrap(),
        Status::PermanentFailure(PermanentFailure::BadRequest)
    );
    assert_eq!(
        Status::try_from(60).unwrap(),
        Status::ClientCertificateRequired(ClientCertificateRequired::ClientCertificateRequired)
    );
    assert_eq!(
        Status::try_from(61).unwrap(),
        Status::ClientCertificateRequired(ClientCertificateRequired::CertificateNotAuthorized)
    );
    assert_eq!(
        Status::try_from(62).unwrap(),
        Status::ClientCertificateRequired(ClientCertificateRequired::CertificateNotValid)
    );
}
