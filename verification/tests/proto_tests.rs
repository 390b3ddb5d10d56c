use native_sidecar::catalog::LayoutInfo;
use native_sidecar::errors::LayoutError;
use native_sidecar::proto::{
    list_response, plan_line, plan_switch, ready_response, switch_response, unknown_response,
    Plan, Request, Status, SwitchRoute,
};

fn req(action: &str, payload: &str) -> Request {
    Request { action: action.to_string(), payload: payload.to_string() }
}

#[test]
fn undecodable_line_gets_no_response() {
    // A line that did not decode to a request produces no output at all.
    assert_eq!(plan_line(&None), Plan::Ignore);
}

#[test]
fn action_words_route() {
    assert_eq!(plan_line(&Some(req("list", ""))), Plan::DoList);
    assert_eq!(plan_line(&Some(req("switch", "00000409"))), Plan::DoSwitch);
    assert_eq!(plan_line(&Some(req("bogus", ""))), Plan::DoUnknown);
    assert_eq!(plan_line(&Some(req("", ""))), Plan::DoUnknown);
    assert_eq!(plan_line(&Some(req("List", ""))), Plan::DoUnknown);
}

#[test]
fn composite_payload_goes_to_rich_switcher() {
    let r = plan_switch(
        "TSF:2052:{81D4E9C9-1D3B-41BC-9E6C-4B40BF79E35E}:{12345678-1234-5678-9ABC-DEF012345678}",
    );
    match r {
        Ok(SwitchRoute::Rich(c)) => {
            assert_eq!(c.langid, 2052);
            assert_eq!(c.clsid.data1, 0x81D4E9C9);
        },
        other => panic!("expected the rich route, got {:?}", other),
    }
}

#[test]
fn legacy_payload_goes_to_legacy_switcher() {
    assert_eq!(plan_switch("00000409"), Ok(SwitchRoute::Legacy(0x409)));
}

#[test]
fn composite_payload_with_bad_shape_fails_as_composite() {
    // Still routed by its prefix, never to the legacy switcher.
    assert_eq!(plan_switch("TSF:2052"), Err(LayoutError::InvalidFormat));
    assert_eq!(plan_switch("TSF:x:{a}:{b}"), Err(LayoutError::InvalidLangId));
}

#[test]
fn bad_legacy_payload_is_invalid_hex() {
    assert_eq!(plan_switch("not-hex"), Err(LayoutError::InvalidHex));
    // A legacy handle must be exactly eight hex digits.
    assert_eq!(plan_switch("409"), Err(LayoutError::InvalidHex));
    assert_eq!(plan_switch("0000000409"), Err(LayoutError::InvalidHex));
}

#[test]
fn ready_banner() {
    let r = ready_response();
    assert_eq!(r.status.text().as_str(), "ready");
    assert_eq!(r.message.as_str(), "ALS Sidecar v1.6 (Better Names)");
    assert!(r.data.is_none());
}

#[test]
fn unknown_command_reply() {
    let r = unknown_response();
    assert_eq!(r.status, Status::Okay);
    assert_eq!(r.status.text().as_str(), "ok");
    assert_eq!(r.message.as_str(), "Unknown command");
    assert!(r.data.is_none());
}

#[test]
fn switch_reply_on_success() {
    let r = switch_response("00000409", &Ok(()));
    assert_eq!(r.status, Status::Okay);
    assert_eq!(r.message.as_str(), "Switched to 00000409");
    assert!(r.data.is_none());
}

#[test]
fn switch_reply_on_failure() {
    let r = switch_response("00000409", &Err(LayoutError::NoForegroundWindow));
    assert_eq!(r.status, Status::Failed);
    assert_eq!(r.status.text().as_str(), "error");
    assert_eq!(r.message.as_str(), "No foreground window found");
    let r = switch_response(
        "x",
        &Err(LayoutError::SetProfileFailed("denied".to_string())),
    );
    assert_eq!(r.message.as_str(), "Failed to SetDefaultLanguageProfile: denied");
}

#[test]
fn boundary_failure_messages() {
    assert_eq!(
        LayoutError::PostMessageFailed("code 5".to_string()).message().as_str(),
        "PostMessage failed: code 5"
    );
    assert_eq!(
        LayoutError::SubprocessFailed("not found".to_string()).message().as_str(),
        "Failed to run PowerShell: not found"
    );
    assert_eq!(LayoutError::LoadLayoutFailed.message().as_str(), "Failed to load layout");
    assert_eq!(LayoutError::InvalidFormat.message().as_str(), "Invalid format");
    assert_eq!(LayoutError::InvalidHex.message().as_str(), "Invalid Hex");
    assert_eq!(LayoutError::InvalidGuid.message().as_str(), "Invalid GUID");
    assert_eq!(LayoutError::InvalidLangId.message().as_str(), "Invalid LangID");
}

#[test]
fn list_reply_carries_catalog() {
    let cat = vec![LayoutInfo { id: "00000409".to_string(), name: "English (US) - Legacy".to_string() }];
    let r = list_response(Ok(cat));
    assert_eq!(r.status, Status::Okay);
    assert_eq!(r.message.as_str(), "");
    let data = r.data.unwrap();
    assert_eq!(data.len(), 1);
    assert_eq!(data[0].id.as_str(), "00000409");
}

#[test]
fn list_reply_no_layouts() {
    let r = list_response(Err(LayoutError::NoLayouts));
    assert_eq!(r.status, Status::Failed);
    assert_eq!(r.message.as_str(), "No layouts found");
    assert!(r.data.is_none());
}
