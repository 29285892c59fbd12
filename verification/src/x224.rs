//! X224 (slow-path) messages.
//!
//! While modern connections prefer the fast path for graphics updates, the slow path is still used for:
//!
//! - control messages
//! - virtual channel data
//! - graphics updates, when the fast path is not negotiated
//! - deactivation and reactivation
//!
//! Graphics that arrive on the slow path are handed to [`crate::fast_path::Processor`], since drawing is
//! the same on both paths.
//!
//! The processor decides what a message means. The messages come decoded, and the frames to send go out
//! unencoded.

use vstd::prelude::*;
use vstd::slice::slice_to_vec;

use crate::cursor::ReadCursor;
use crate::error::{SessionError, SessionResult};
use crate::palette::{PaletteEntry, PaletteUpdate};
use crate::server_graphics_update::{update_at, ServerGraphicsUpdate, UpdateView};

verus! {

/// Why a session ends.
#[derive(Debug, Clone, Copy, PartialEq, Eq, Structural)]
pub enum DisconnectReason {
    DomainDisconnected,
    ProviderInitiated,
    TokenPurged,
    UserRequested,
    ChannelPurged,
}

/// The number by which the server says why it disconnects; 0 means no error.
#[derive(Debug, Clone, Copy, PartialEq, Eq, Structural)]
pub struct ErrorInfo(pub u32);

/// A message of the transport.
#[derive(Debug, Clone, Copy, PartialEq, Eq)]
pub enum McsMessage<'a> {
    /// The server ends the session.
    DisconnectProviderUltimatum(DisconnectReason),
    /// Data on a channel.
    SendDataIndication { initiator_id: u16, channel_id: u16, user_data: &'a [u8] },
    /// Something else, or something that could not be decoded.
    Other,
}

/// The request to open a second transport.
#[derive(Debug, Clone, Copy, PartialEq, Eq)]
pub struct MultitransportRequestPdu {
    pub request_id: u32,
    pub requested_protocol: u16,
    pub security_cookie: [u8; 16],
}

/// What the server found out about the network.
#[derive(Debug, Clone, Copy, PartialEq, Eq, Structural)]
pub struct NetworkCharacteristics {
    pub sequence_number: u16,
    pub base_rtt: Option<u32>,
    pub bandwidth: Option<u32>,
    pub average_rtt: Option<u32>,
}

/// A message of the detection of network characteristics.
#[derive(Debug, Clone, Copy, PartialEq, Eq, Structural)]
pub enum AutoDetectRequest {
    /// The server measures the time of a round trip.
    RttRequest { sequence_number: u16 },
    NetworkCharacteristicsResult(NetworkCharacteristics),
    Other,
}

/// A message of a shared session.
#[derive(Debug, Clone, PartialEq, Eq)]
pub enum ShareDataPdu {
    SaveSessionInfo,
    SetKeyboardIndicators,
    Update(Vec<u8>),
    ServerSetErrorInfo(ErrorInfo),
    ShutdownDenied,
    Pointer(Vec<u8>),
    /// Another message, with its name.
    Other(&'static str),
}

/// A message on the I/O channel.
#[derive(Debug, Clone, PartialEq, Eq)]
pub enum IoChannelPdu {
    Data(ShareDataPdu),
    MultitransportRequest(MultitransportRequestPdu),
    DeactivateAll,
}

#[derive(Debug, Clone, Copy, PartialEq, Eq, Structural)]
pub enum DisconnectDescription {
    /// Includes the reason from the MCS Disconnect Provider Ultimatum.
    /// This is the least-specific disconnect reason and is only used
    /// when a more specific disconnect code is not available.
    McsDisconnect(DisconnectReason),
    /// Includes the error information sent by the server when there
    /// is a connection or disconnection failure.
    ErrorInfo(ErrorInfo),
}

/// A frame to send to the server.
#[derive(Debug, Clone, Copy, PartialEq, Eq, Structural)]
pub enum ResponseFrame {
    DisconnectProviderUltimatum(DisconnectReason),
    RttResponse { initiator_id: u16, channel_id: u16, sequence_number: u16 },
}

/// What has to be done about a message.
#[derive(Debug)]
pub enum ProcessorOutput {
    /// A frame to send to the server.
    ResponseFrame(ResponseFrame),
    /// A graceful disconnect notification. Client should close the connection upon receiving this.
    Disconnect(DisconnectDescription),
    /// The client should execute the deactivation-reactivation sequence.
    DeactivateAll,
    /// The application should establish a second transport.
    MultitransportRequest(MultitransportRequestPdu),
    /// Network characteristics found out by the server. Requests to measure the time of a round trip are
    /// answered without the application.
    AutoDetect(AutoDetectRequest),
    /// Slow-path bitmap update - route to the fast-path processor for rendering.
    SlowPathBitmap(Vec<u8>),
    /// Palette update for 8bpp color mode.
    PaletteUpdate(PaletteUpdate),
    /// Slow-path drawing orders update - route to the fast-path processor for rendering.
    SlowPathOrders { number_orders: u16, order_data: Vec<u8> },
    /// Slow-path pointer update.
    SlowPathPointer(Vec<u8>),
}

#[verifier::ext_equal]
pub enum OutputView {
    ResponseFrame(ResponseFrame),
    Disconnect(DisconnectDescription),
    DeactivateAll,
    MultitransportRequest(MultitransportRequestPdu),
    AutoDetect(AutoDetectRequest),
    /// Bitmaps, with the whole update that holds them.
    Bitmap(Seq<u8>),
    Palette(Seq<PaletteEntry>),
    Orders { number_orders: u16, order_data: Seq<u8> },
    Pointer(Seq<u8>),
}

impl View for ProcessorOutput {
    type V = OutputView;

    open spec fn view(&self) -> OutputView {
        match self {
            ProcessorOutput::ResponseFrame(frame) => OutputView::ResponseFrame(*frame),
            ProcessorOutput::Disconnect(description) => OutputView::Disconnect(*description),
            ProcessorOutput::DeactivateAll => OutputView::DeactivateAll,
            ProcessorOutput::MultitransportRequest(pdu) => OutputView::MultitransportRequest(*pdu),
            ProcessorOutput::AutoDetect(request) => OutputView::AutoDetect(*request),
            ProcessorOutput::SlowPathBitmap(data) => OutputView::Bitmap(data@),
            ProcessorOutput::PaletteUpdate(palette) => OutputView::Palette(palette@),
            ProcessorOutput::SlowPathOrders { number_orders, order_data } => OutputView::Orders {
                number_orders: *number_orders,
                order_data: order_data@,
            },
            ProcessorOutput::SlowPathPointer(data) => OutputView::Pointer(data@),
        }
    }
}

/// Each output as a mathematical value.
pub open spec fn output_views(outputs: Seq<ProcessorOutput>) -> Seq<OutputView> {
    Seq::new(outputs.len(), |i: int| outputs[i]@)
}

/// Whether a result is as expected, each output taken by its view.
pub open spec fn outputs(
    r: SessionResult<Vec<ProcessorOutput>>,
    expected: SessionResult<Seq<OutputView>>,
) -> bool {
    match (r, expected) {
        (Ok(list), Ok(views)) => output_views(list@) == views,
        (Err(e), Err(f)) => e == f,
        _ => false,
    }
}

/// Where a message has to go.
#[derive(Debug)]
pub enum Route<'a> {
    /// Nowhere: it says by itself what has to be done.
    Done(ProcessorOutput),
    /// To [`Processor::process_io_channel`]
    Io(&'a [u8]),
    /// To [`Processor::process_message_channel`]
    Message(&'a [u8]),
    /// To the static channel; its answer goes back on the channel.
    StaticChannel { initiator_id: u16, channel_id: u16, user_data: &'a [u8] },
}

/// What a graphics update on the slow path comes to. Updates that cannot be decoded are ignored.
pub open spec fn update_outputs(data: Seq<u8>) -> Seq<OutputView> {
    match update_at(data).result {
        Ok(UpdateView::Bitmap(_)) => seq![OutputView::Bitmap(data)],
        Ok(UpdateView::Orders { number_orders, order_data }) => seq![
            OutputView::Orders { number_orders, order_data },
        ],
        Ok(UpdateView::Palette(entries)) => seq![OutputView::Palette(entries)],
        Ok(UpdateView::Synchronize) => Seq::empty(),
        Err(_) => Seq::empty(),
    }
}

/// What a message of a shared session comes to.
pub open spec fn share_data_outputs(pdu: ShareDataPdu) -> SessionResult<Seq<OutputView>> {
    match pdu {
        ShareDataPdu::SaveSessionInfo | ShareDataPdu::SetKeyboardIndicators => Ok(Seq::empty()),
        ShareDataPdu::Update(data) => Ok(update_outputs(data@)),
        ShareDataPdu::ServerSetErrorInfo(e) => if e.0 == 0 {
            Ok(Seq::empty())
        } else {
            Ok(seq![OutputView::Disconnect(DisconnectDescription::ErrorInfo(e))])
        },
        ShareDataPdu::ShutdownDenied => Ok(
            seq![
                OutputView::ResponseFrame(
                    ResponseFrame::DisconnectProviderUltimatum(DisconnectReason::UserRequested),
                ),
                OutputView::Disconnect(
                    DisconnectDescription::McsDisconnect(DisconnectReason::UserRequested),
                ),
            ],
        ),
        ShareDataPdu::Pointer(data) => Ok(seq![OutputView::Pointer(data@)]),
        ShareDataPdu::Other(name) => Err(SessionError::UnhandledPdu(name)),
    }
}

/// What a message on the I/O channel comes to.
pub open spec fn io_outputs(pdu: IoChannelPdu) -> SessionResult<Seq<OutputView>> {
    match pdu {
        IoChannelPdu::Data(pdu) => share_data_outputs(pdu),
        IoChannelPdu::MultitransportRequest(pdu) => Ok(seq![OutputView::MultitransportRequest(pdu)]),
        IoChannelPdu::DeactivateAll => Ok(seq![OutputView::DeactivateAll]),
    }
}

/// What goes with every message to the server on the I/O channel.
#[derive(Debug, Clone, Copy, PartialEq, Eq, Structural)]
pub struct ShareDataHeader {
    pub initiator_id: u16,
    pub channel_id: u16,
    pub share_id: u32,
}

/// Processes messages of the slow path.
#[derive(Debug)]
pub struct Processor {
    /// The channels that the application has joined
    pub static_channels: Vec<u16>,
    pub user_channel_id: u16,
    pub io_channel_id: u16,
    pub message_channel_id: Option<u16>,
    pub share_id: u32,
}

fn one(output: ProcessorOutput) -> (r: Vec<ProcessorOutput>)
    ensures
        output_views(r@) == seq![output@],
{
    let mut outputs: Vec<ProcessorOutput> = Vec::new();
    outputs.push(output);
    assert(output_views(outputs@) =~= seq![output@]);
    outputs
}

impl Processor {
    pub fn new(
        static_channels: Vec<u16>,
        user_channel_id: u16,
        io_channel_id: u16,
        message_channel_id: Option<u16>,
        share_id: u32,
    ) -> (r: Processor)
        ensures
            r == (Processor {
                static_channels,
                user_channel_id,
                io_channel_id,
                message_channel_id,
                share_id,
            }),
    {
        Processor { static_channels, user_channel_id, io_channel_id, message_channel_id, share_id }
    }

    pub fn set_share_id(&mut self, share_id: u32)
        ensures
            *final(self) == (Processor { share_id, ..*old(self) }),
    {
        self.share_id = share_id;
    }

    /// The channels between which messages of a static channel go to the server.
    pub fn process_svc_processor_messages(&self, channel: Option<u16>) -> (r: SessionResult<(u16, u16)>)
        ensures
            r == (match channel {
                Some(channel_id) => Ok((channel_id, self.user_channel_id)),
                None => Err(SessionError::ChannelNotFound),
            }),
    {
        match channel {
            Some(channel_id) => Ok((channel_id, self.user_channel_id)),
            None => Err(SessionError::ChannelNotFound),
        }
    }

    /// What goes with a message to the server on the I/O channel. Typically used to send input events.
    pub fn encode_static(&self) -> (r: ShareDataHeader)
        ensures
            r == (ShareDataHeader {
                initiator_id: self.user_channel_id,
                channel_id: self.io_channel_id,
                share_id: self.share_id,
            }),
    {
        ShareDataHeader {
            initiator_id: self.user_channel_id,
            channel_id: self.io_channel_id,
            share_id: self.share_id,
        }
    }

    fn is_static_channel(&self, channel_id: u16) -> (r: bool)
        ensures
            r == self.static_channels@.contains(channel_id),
    {
        let mut i: usize = 0;
        while i < self.static_channels.len()
            invariant
                i <= self.static_channels@.len(),
                forall|k: int| 0 <= k < i ==> #[trigger] self.static_channels@[k] != channel_id,
            decreases self.static_channels@.len() - i,
        {
            if self.static_channels[i] == channel_id {
                return true;
            }
            i = i + 1;
        }
        false
    }

    /// Says where a received message has to go.
    ///
    /// A server that ends the session sends an ultimatum in place of data; that is a clean end and no
    /// error.
    pub fn process<'a>(&self, message: McsMessage<'a>) -> (r: SessionResult<Route<'a>>)
        ensures
            match message {
                McsMessage::DisconnectProviderUltimatum(reason) => {
                    &&& r matches Ok(Route::Done(output))
                    &&& output@ == OutputView::Disconnect(DisconnectDescription::McsDisconnect(reason))
                },
                McsMessage::SendDataIndication { initiator_id, channel_id, user_data } => if channel_id
                    == self.io_channel_id {
                    r matches Ok(Route::Io(data)) && data@ == user_data@
                } else if self.message_channel_id == Some(channel_id) {
                    r matches Ok(Route::Message(data)) && data@ == user_data@
                } else if self.static_channels@.contains(channel_id) {
                    &&& r matches Ok(
                        Route::StaticChannel { initiator_id: i, channel_id: c, user_data: data },
                    )
                    &&& i == initiator_id && c == channel_id && data@ == user_data@
                } else {
                    r matches Err(e) && e == SessionError::UnexpectedChannel(channel_id)
                },
                McsMessage::Other => r matches Err(e) && e == SessionError::UnexpectedMessage,
            },
    {
        match message {
            McsMessage::DisconnectProviderUltimatum(reason) => Ok(
                Route::Done(ProcessorOutput::Disconnect(DisconnectDescription::McsDisconnect(reason))),
            ),
            McsMessage::SendDataIndication { initiator_id, channel_id, user_data } => {
                let is_message: bool = match self.message_channel_id {
                    Some(id) => id == channel_id,
                    None => false,
                };
                if channel_id == self.io_channel_id {
                    Ok(Route::Io(user_data))
                } else if is_message {
                    Ok(Route::Message(user_data))
                } else if self.is_static_channel(channel_id) {
                    Ok(Route::StaticChannel { initiator_id, channel_id, user_data })
                } else {
                    Err(SessionError::UnexpectedChannel(channel_id))
                }
            },
            McsMessage::Other => Err(SessionError::UnexpectedMessage),
        }
    }

    /// Says what has to be done about a message on the I/O channel. The outputs must be processed in the
    /// returned order.
    pub fn process_io_channel(&self, pdu: IoChannelPdu) -> (r: SessionResult<Vec<ProcessorOutput>>)
        ensures
            outputs(r, io_outputs(pdu)),
    {
        match pdu {
            IoChannelPdu::Data(data) => self.process_share_data(data),
            IoChannelPdu::MultitransportRequest(request) => Ok(
                one(ProcessorOutput::MultitransportRequest(request)),
            ),
            IoChannelPdu::DeactivateAll => Ok(one(ProcessorOutput::DeactivateAll)),
        }
    }

    fn process_share_data(&self, pdu: ShareDataPdu) -> (r: SessionResult<Vec<ProcessorOutput>>)
        ensures
            outputs(r, share_data_outputs(pdu)),
    {
        let nothing: Vec<ProcessorOutput> = Vec::new();
        assert(output_views(nothing@) =~= Seq::empty());
        match pdu {
            ShareDataPdu::SaveSessionInfo => Ok(nothing),
            ShareDataPdu::SetKeyboardIndicators => Ok(nothing),
            ShareDataPdu::Update(data) => Ok(process_update(data)),
            ShareDataPdu::ServerSetErrorInfo(e) => if e.0 == 0 {
                Ok(nothing)
            } else {
                Ok(one(ProcessorOutput::Disconnect(DisconnectDescription::ErrorInfo(e))))
            },
            ShareDataPdu::ShutdownDenied => {
                let reason: DisconnectReason = DisconnectReason::UserRequested;
                let mut list: Vec<ProcessorOutput> = one(
                    ProcessorOutput::ResponseFrame(ResponseFrame::DisconnectProviderUltimatum(reason)),
                );
                let ghost first = list@;
                list.push(ProcessorOutput::Disconnect(DisconnectDescription::McsDisconnect(reason)));
                proof {
                    assert(output_views(first).len() == 1);
                    assert(list@[0]@ == output_views(first)[0]);
                    assert(output_views(list@) =~= share_data_outputs(pdu)->Ok_0);
                }
                Ok(list)
            },
            ShareDataPdu::Pointer(data) => Ok(one(ProcessorOutput::SlowPathPointer(data))),
            ShareDataPdu::Other(name) => Err(SessionError::UnhandledPdu(name)),
        }
    }

    /// Says what has to be done about a message on the message channel: a measurement of the time of a
    /// round trip is answered, and what the server found out is handed on.
    pub fn process_message_channel(&self, request: AutoDetectRequest) -> (r: SessionResult<
        Vec<ProcessorOutput>,
    >)
        ensures
            outputs(
                r,
                match (self.message_channel_id, request) {
                    (None, _) => Err(SessionError::NoMessageChannel),
                    (Some(channel_id), AutoDetectRequest::RttRequest { sequence_number }) => Ok(
                        seq![
                            OutputView::ResponseFrame(
                                ResponseFrame::RttResponse {
                                    initiator_id: self.user_channel_id,
                                    channel_id,
                                    sequence_number,
                                },
                            ),
                        ],
                    ),
                    (Some(_), AutoDetectRequest::NetworkCharacteristicsResult(_)) => Ok(
                        seq![OutputView::AutoDetect(request)],
                    ),
                    (Some(_), AutoDetectRequest::Other) => Ok(Seq::empty()),
                },
            ),
    {
        let channel_id: u16 = match self.message_channel_id {
            Some(id) => id,
            None => {
                return Err(SessionError::NoMessageChannel);
            },
        };
        match request {
            AutoDetectRequest::RttRequest { sequence_number } => Ok(
                one(
                    ProcessorOutput::ResponseFrame(
                        ResponseFrame::RttResponse {
                            initiator_id: self.user_channel_id,
                            channel_id,
                            sequence_number,
                        },
                    ),
                ),
            ),
            AutoDetectRequest::NetworkCharacteristicsResult(_) => Ok(
                one(ProcessorOutput::AutoDetect(request)),
            ),
            AutoDetectRequest::Other => {
                let nothing: Vec<ProcessorOutput> = Vec::new();
                assert(output_views(nothing@) =~= Seq::empty());
                Ok(nothing)
            },
        }
    }
}

fn process_update(data: Vec<u8>) -> (r: Vec<ProcessorOutput>)
    ensures
        output_views(r@) == update_outputs(data@),
{
    let nothing: Vec<ProcessorOutput> = Vec::new();
    assert(output_views(nothing@) =~= Seq::empty());
    let mut cursor: ReadCursor<'_> = ReadCursor::new(data.as_slice());
    let is_bitmap: bool = match ServerGraphicsUpdate::decode(&mut cursor) {
        Ok(ServerGraphicsUpdate::Bitmap(_)) => true,
        Ok(ServerGraphicsUpdate::Orders(orders)) => {
            return one(
                ProcessorOutput::SlowPathOrders {
                    number_orders: orders.number_orders,
                    order_data: slice_to_vec(orders.order_data),
                },
            );
        },
        Ok(ServerGraphicsUpdate::Palette(palette)) => {
            return one(ProcessorOutput::PaletteUpdate(palette));
        },
        Ok(ServerGraphicsUpdate::Synchronize) => false,
        Err(_) => false,
    };
    if is_bitmap {
        one(ProcessorOutput::SlowPathBitmap(data))
    } else {
        nothing
    }
}

/// A session that the server ends, or that is ended at the wish of the user, is ended once: whatever is
/// to be disconnected comes last.
pub proof fn law_disconnect_comes_last(pdu: IoChannelPdu, i: int)
    requires
        io_outputs(pdu) matches Ok(list) && 0 <= i < list.len() && list[i] is Disconnect,
    ensures
        i == io_outputs(pdu)->Ok_0.len() - 1,
{
}

} // verus!
