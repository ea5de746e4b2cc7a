use lspyx::mcp::transport::{receive_step, ClientMessageAction, ClientMessageKind};

#[test]
fn custom_messages_before_initialize_are_answered_or_dropped() {
    assert_eq!(
        receive_step(false, ClientMessageKind::CustomRequest),
        (false, ClientMessageAction::RejectMethod)
    );
    assert_eq!(
        receive_step(false, ClientMessageKind::CustomNotification),
        (false, ClientMessageAction::Ignore)
    );
    assert_eq!(receive_step(false, ClientMessageKind::Other), (false, ClientMessageAction::Deliver));
}

#[test]
fn initialize_opens_the_session_for_every_message() {
    assert_eq!(
        receive_step(false, ClientMessageKind::Initialize),
        (true, ClientMessageAction::Deliver)
    );
    for kind in [
        ClientMessageKind::Initialize,
        ClientMessageKind::CustomRequest,
        ClientMessageKind::CustomNotification,
        ClientMessageKind::Other,
    ] {
        assert_eq!(receive_step(true, kind), (true, ClientMessageAction::Deliver));
    }
}
