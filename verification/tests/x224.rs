use rdp_session::error::SessionError;
use rdp_session::x224::{
    AutoDetectRequest, DisconnectDescription, DisconnectReason, ErrorInfo, IoChannelPdu, McsMessage,
    MultitransportRequestPdu, NetworkCharacteristics, Processor, ProcessorOutput, ResponseFrame, Route,
    ShareDataHeader, ShareDataPdu,
};

fn processor() -> Processor {
    Processor::new(vec![1005, 1006], 1004, 1003, Some(1007), 42)
}

/// A server that ends the session is no error.
#[test]
fn disconnect_provider_ultimatum_decoded_as_disconnect_output() {
    let message = McsMessage::DisconnectProviderUltimatum(DisconnectReason::ProviderInitiated);
    match processor().process(message).unwrap() {
        Route::Done(ProcessorOutput::Disconnect(DisconnectDescription::McsDisconnect(
            DisconnectReason::ProviderInitiated,
        ))) => {}
        other => panic!("unexpected output: {:?}", other),
    }
}

#[test]
fn disconnect_user_requested_decoded_correctly() {
    let message = McsMessage::DisconnectProviderUltimatum(DisconnectReason::UserRequested);
    assert!(matches!(
        processor().process(message),
        Ok(Route::Done(ProcessorOutput::Disconnect(DisconnectDescription::McsDisconnect(
            DisconnectReason::UserRequested
        ))))
    ));
}

#[test]
fn data_goes_to_its_channel() {
    let data = [1u8, 2, 3];
    let message = |channel_id| McsMessage::SendDataIndication { initiator_id: 9, channel_id, user_data: &data };
    assert!(matches!(processor().process(message(1003)), Ok(Route::Io(d)) if d == data));
    assert!(matches!(processor().process(message(1007)), Ok(Route::Message(d)) if d == data));
    assert!(matches!(
        processor().process(message(1006)),
        Ok(Route::StaticChannel { initiator_id: 9, channel_id: 1006, user_data }) if user_data == data
    ));
    assert_eq!(processor().process(message(1008)).unwrap_err(), SessionError::UnexpectedChannel(1008));
    assert_eq!(processor().process(McsMessage::Other).unwrap_err(), SessionError::UnexpectedMessage);
}

fn io(pdu: ShareDataPdu) -> Vec<ProcessorOutput> {
    processor().process_io_channel(IoChannelPdu::Data(pdu)).unwrap()
}

#[test]
fn graphics_updates_are_routed() {
    let bitmap = vec![0x01, 0x00, 0x00, 0x00, 0xAA];
    assert!(matches!(&io(ShareDataPdu::Update(bitmap.clone()))[..], [ProcessorOutput::SlowPathBitmap(d)] if *d == bitmap));
    let orders = vec![0, 0, 0, 0, 5, 0, 0, 0, 0xAA, 0xBB];
    assert!(matches!(
        &io(ShareDataPdu::Update(orders))[..],
        [ProcessorOutput::SlowPathOrders { number_orders: 5, order_data }] if order_data == &[0xAA, 0xBB]
    ));
    let palette = vec![2, 0, 0, 0, 1, 0, 0, 0, 7, 8, 9];
    match &io(ShareDataPdu::Update(palette))[..] {
        [ProcessorOutput::PaletteUpdate(p)] => {
            assert_eq!((p.entries[0].red, p.entries[0].green, p.entries[0].blue), (7, 8, 9));
        }
        other => panic!("unexpected outputs {:?}", other),
    }
    assert!(io(ShareDataPdu::Update(vec![3, 0])).is_empty());
    assert!(io(ShareDataPdu::Update(vec![9])).is_empty());
    assert!(matches!(&io(ShareDataPdu::Pointer(vec![1, 2]))[..], [ProcessorOutput::SlowPathPointer(d)] if d == &[1, 2]));
}

#[test]
fn control_messages_are_handled() {
    assert!(io(ShareDataPdu::SaveSessionInfo).is_empty());
    assert!(io(ShareDataPdu::SetKeyboardIndicators).is_empty());
    assert!(io(ShareDataPdu::ServerSetErrorInfo(ErrorInfo(0))).is_empty());
    assert!(matches!(
        io(ShareDataPdu::ServerSetErrorInfo(ErrorInfo(12)))[..],
        [ProcessorOutput::Disconnect(DisconnectDescription::ErrorInfo(ErrorInfo(12)))]
    ));
    assert!(matches!(
        io(ShareDataPdu::ShutdownDenied)[..],
        [
            ProcessorOutput::ResponseFrame(ResponseFrame::DisconnectProviderUltimatum(
                DisconnectReason::UserRequested
            )),
            ProcessorOutput::Disconnect(DisconnectDescription::McsDisconnect(DisconnectReason::UserRequested)),
        ]
    ));
    assert_eq!(
        processor().process_io_channel(IoChannelPdu::Data(ShareDataPdu::Other("Input"))).unwrap_err(),
        SessionError::UnhandledPdu("Input")
    );
    let request = MultitransportRequestPdu { request_id: 3, requested_protocol: 1, security_cookie: [5; 16] };
    assert!(matches!(
        processor().process_io_channel(IoChannelPdu::MultitransportRequest(request)).unwrap()[..],
        [ProcessorOutput::MultitransportRequest(r)] if r == request
    ));
    assert!(matches!(
        processor().process_io_channel(IoChannelPdu::DeactivateAll).unwrap()[..],
        [ProcessorOutput::DeactivateAll]
    ));
}

#[test]
fn round_trips_are_answered() {
    let request = AutoDetectRequest::RttRequest { sequence_number: 77 };
    assert!(matches!(
        processor().process_message_channel(request).unwrap()[..],
        [ProcessorOutput::ResponseFrame(ResponseFrame::RttResponse {
            initiator_id: 1004,
            channel_id: 1007,
            sequence_number: 77
        })]
    ));
    let result = AutoDetectRequest::NetworkCharacteristicsResult(NetworkCharacteristics {
        sequence_number: 1,
        base_rtt: Some(20),
        bandwidth: None,
        average_rtt: Some(30),
    });
    assert!(matches!(
        processor().process_message_channel(result).unwrap()[..],
        [ProcessorOutput::AutoDetect(r)] if r == result
    ));
    assert!(processor().process_message_channel(AutoDetectRequest::Other).unwrap().is_empty());
    let without = Processor::new(Vec::new(), 1004, 1003, None, 42);
    assert_eq!(without.process_message_channel(request).unwrap_err(), SessionError::NoMessageChannel);
}

#[test]
fn messages_to_the_server_carry_their_channels() {
    let mut p = processor();
    p.set_share_id(43);
    assert_eq!(p.encode_static(), ShareDataHeader { initiator_id: 1004, channel_id: 1003, share_id: 43 });
    assert_eq!(p.process_svc_processor_messages(Some(1005)), Ok((1005, 1004)));
    assert_eq!(p.process_svc_processor_messages(None), Err(SessionError::ChannelNotFound));
}
