//! Output DSP vocabulary: the output device classes and filter kinds a
//! profile is built for, and why a profile is refused.
use vstd::prelude::*;

verus! {

/// The kind of output device a factory profile is tuned for.
#[derive(Debug, Clone, Copy, PartialEq, Eq, Structural)]
pub enum OutputDeviceClass {
    DesktopSpeaker,
    BookshelfSpeaker,
    StudioMonitor,
    DesktopMonitorSpeaker,
    TvSpeaker,
    Soundbar,
    Speaker2_1,
    Speaker5_1,
    Speaker7_1,
    OpenBackHeadphone,
    ClosedBackHeadphone,
    GamingHeadset,
    Iem,
    WiredEarbud,
    BluetoothEarbud,
    BluetoothHeadphone,
    VehicleAudio,
    ExternalAudio,
    Custom,
}

impl OutputDeviceClass {
    pub open spec fn label_spec(self) -> Seq<char> {
        match self {
            OutputDeviceClass::DesktopSpeaker => "Desktop speakers"@,
            OutputDeviceClass::BookshelfSpeaker => "Bookshelf speakers"@,
            OutputDeviceClass::StudioMonitor => "Studio monitors"@,
            OutputDeviceClass::DesktopMonitorSpeaker => "Desktop monitor speakers"@,
            OutputDeviceClass::TvSpeaker => "TV speakers"@,
            OutputDeviceClass::Soundbar => "Soundbar"@,
            OutputDeviceClass::Speaker2_1 => "2.1 speakers"@,
            OutputDeviceClass::Speaker5_1 => "5.1 speakers"@,
            OutputDeviceClass::Speaker7_1 => "7.1 speakers"@,
            OutputDeviceClass::OpenBackHeadphone => "Open-back headphones"@,
            OutputDeviceClass::ClosedBackHeadphone => "Closed-back headphones"@,
            OutputDeviceClass::GamingHeadset => "Gaming headset"@,
            OutputDeviceClass::Iem => "IEM"@,
            OutputDeviceClass::WiredEarbud => "Wired earbuds"@,
            OutputDeviceClass::BluetoothEarbud => "Bluetooth earbuds"@,
            OutputDeviceClass::BluetoothHeadphone => "Bluetooth headphones"@,
            OutputDeviceClass::VehicleAudio => "Vehicle audio"@,
            OutputDeviceClass::ExternalAudio => "External audio"@,
            OutputDeviceClass::Custom => "Custom"@,
        }
    }

    /// The class's display label.
    pub fn label(self) -> (r: &'static str)
        ensures
            r@ == self.label_spec(),
    {
        match self {
            OutputDeviceClass::DesktopSpeaker => "Desktop speakers",
            OutputDeviceClass::BookshelfSpeaker => "Bookshelf speakers",
            OutputDeviceClass::StudioMonitor => "Studio monitors",
            OutputDeviceClass::DesktopMonitorSpeaker => "Desktop monitor speakers",
            OutputDeviceClass::TvSpeaker => "TV speakers",
            OutputDeviceClass::Soundbar => "Soundbar",
            OutputDeviceClass::Speaker2_1 => "2.1 speakers",
            OutputDeviceClass::Speaker5_1 => "5.1 speakers",
            OutputDeviceClass::Speaker7_1 => "7.1 speakers",
            OutputDeviceClass::OpenBackHeadphone => "Open-back headphones",
            OutputDeviceClass::ClosedBackHeadphone => "Closed-back headphones",
            OutputDeviceClass::GamingHeadset => "Gaming headset",
            OutputDeviceClass::Iem => "IEM",
            OutputDeviceClass::WiredEarbud => "Wired earbuds",
            OutputDeviceClass::BluetoothEarbud => "Bluetooth earbuds",
            OutputDeviceClass::BluetoothHeadphone => "Bluetooth headphones",
            OutputDeviceClass::VehicleAudio => "Vehicle audio",
            OutputDeviceClass::ExternalAudio => "External audio",
            OutputDeviceClass::Custom => "Custom",
        }
    }

    /// A display's own speakers: a television's, or a desktop monitor's.
    pub fn for_display_speakers(is_television: bool) -> (r: Self)
        ensures
            is_television ==> r == OutputDeviceClass::TvSpeaker,
            !is_television ==> r == OutputDeviceClass::DesktopMonitorSpeaker,
    {
        if is_television {
            OutputDeviceClass::TvSpeaker
        } else {
            OutputDeviceClass::DesktopMonitorSpeaker
        }
    }

    /// Every class, in declaration order.
    pub fn all() -> (r: Vec<Self>)
        ensures
            r@.len() == 19,
            forall|c: OutputDeviceClass| r@.contains(c),
    {
        let r = vec![
            OutputDeviceClass::DesktopSpeaker,
            OutputDeviceClass::BookshelfSpeaker,
            OutputDeviceClass::StudioMonitor,
            OutputDeviceClass::DesktopMonitorSpeaker,
            OutputDeviceClass::TvSpeaker,
            OutputDeviceClass::Soundbar,
            OutputDeviceClass::Speaker2_1,
            OutputDeviceClass::Speaker5_1,
            OutputDeviceClass::Speaker7_1,
            OutputDeviceClass::OpenBackHeadphone,
            OutputDeviceClass::ClosedBackHeadphone,
            OutputDeviceClass::GamingHeadset,
            OutputDeviceClass::Iem,
            OutputDeviceClass::WiredEarbud,
            OutputDeviceClass::BluetoothEarbud,
            OutputDeviceClass::BluetoothHeadphone,
            OutputDeviceClass::VehicleAudio,
            OutputDeviceClass::ExternalAudio,
            OutputDeviceClass::Custom,
        ];
        assert forall|c: OutputDeviceClass| r@.contains(c) by {
            match c {
                OutputDeviceClass::DesktopSpeaker => assert(r@[0] == c),
                OutputDeviceClass::BookshelfSpeaker => assert(r@[1] == c),
                OutputDeviceClass::StudioMonitor => assert(r@[2] == c),
                OutputDeviceClass::DesktopMonitorSpeaker => assert(r@[3] == c),
                OutputDeviceClass::TvSpeaker => assert(r@[4] == c),
                OutputDeviceClass::Soundbar => assert(r@[5] == c),
                OutputDeviceClass::Speaker2_1 => assert(r@[6] == c),
                OutputDeviceClass::Speaker5_1 => assert(r@[7] == c),
                OutputDeviceClass::Speaker7_1 => assert(r@[8] == c),
                OutputDeviceClass::OpenBackHeadphone => assert(r@[9] == c),
                OutputDeviceClass::ClosedBackHeadphone => assert(r@[10] == c),
                OutputDeviceClass::GamingHeadset => assert(r@[11] == c),
                OutputDeviceClass::Iem => assert(r@[12] == c),
                OutputDeviceClass::WiredEarbud => assert(r@[13] == c),
                OutputDeviceClass::BluetoothEarbud => assert(r@[14] == c),
                OutputDeviceClass::BluetoothHeadphone => assert(r@[15] == c),
                OutputDeviceClass::VehicleAudio => assert(r@[16] == c),
                OutputDeviceClass::ExternalAudio => assert(r@[17] == c),
                OutputDeviceClass::Custom => assert(r@[18] == c),
            }
        }
        r
    }
}

/// The kind of one output filter.
#[derive(Debug, Clone, Copy, PartialEq, Eq, Structural)]
pub enum OutputFilterKind {
    HighPass,
    LowPass,
    BandPass,
    Peak,
    Notch,
    LowShelf,
    HighShelf,
}

impl OutputFilterKind {
    pub open spec fn label_spec(self) -> Seq<char> {
        match self {
            OutputFilterKind::HighPass => "High-pass"@,
            OutputFilterKind::LowPass => "Low-pass"@,
            OutputFilterKind::BandPass => "Mid / band-pass"@,
            OutputFilterKind::Peak => "Parametric peak"@,
            OutputFilterKind::Notch => "Notch"@,
            OutputFilterKind::LowShelf => "Low shelf"@,
            OutputFilterKind::HighShelf => "High shelf"@,
        }
    }

    /// The filter kind's display label.
    pub fn label(self) -> (r: &'static str)
        ensures
            r@ == self.label_spec(),
    {
        match self {
            OutputFilterKind::HighPass => "High-pass",
            OutputFilterKind::LowPass => "Low-pass",
            OutputFilterKind::BandPass => "Mid / band-pass",
            OutputFilterKind::Peak => "Parametric peak",
            OutputFilterKind::Notch => "Notch",
            OutputFilterKind::LowShelf => "Low shelf",
            OutputFilterKind::HighShelf => "High shelf",
        }
    }

    /// Every kind, in the order a profile editor offers them.
    pub fn all() -> (r: Vec<Self>)
        ensures
            r@ == seq![
                OutputFilterKind::HighPass,
                OutputFilterKind::BandPass,
                OutputFilterKind::LowPass,
                OutputFilterKind::Peak,
                OutputFilterKind::Notch,
                OutputFilterKind::LowShelf,
                OutputFilterKind::HighShelf,
            ],
    {
        let r = vec![
            OutputFilterKind::HighPass,
            OutputFilterKind::BandPass,
            OutputFilterKind::LowPass,
            OutputFilterKind::Peak,
            OutputFilterKind::Notch,
            OutputFilterKind::LowShelf,
            OutputFilterKind::HighShelf,
        ];
        assert(r@ =~= seq![
            OutputFilterKind::HighPass,
            OutputFilterKind::BandPass,
            OutputFilterKind::LowPass,
            OutputFilterKind::Peak,
            OutputFilterKind::Notch,
            OutputFilterKind::LowShelf,
            OutputFilterKind::HighShelf,
        ]);
        r
    }
}

/// Why an output DSP profile is refused.
#[derive(Debug, Clone, Copy, PartialEq, Eq, Structural)]
pub enum OutputDspProfileError {
    InvalidSampleRate,
    InvalidChannelCount,
    InvalidGain,
    InvalidFrequency,
    InvalidQ,
    InvalidSlope,
    InvalidLimiterCeiling,
}

impl OutputDspProfileError {
    pub open spec fn text(self) -> Seq<char> {
        match self {
            OutputDspProfileError::InvalidSampleRate => "sample rate must be finite and between 8 kHz and 384 kHz"@,
            OutputDspProfileError::InvalidChannelCount => "channel count must be between 1 and 32"@,
            OutputDspProfileError::InvalidGain => "gain values must be finite and between -24 dB and +24 dB"@,
            OutputDspProfileError::InvalidFrequency => "filter or enhancement frequency is outside the usable audio band"@,
            OutputDspProfileError::InvalidQ => "Q must be finite and between 0.1 and 18"@,
            OutputDspProfileError::InvalidSlope => "filter slope must be 6, 12, 18, 24, 36, or 48 dB/octave"@,
            OutputDspProfileError::InvalidLimiterCeiling => "limiter ceiling must be finite and between -12 dBFS and 0 dBFS"@,
        }
    }

    pub fn message(self) -> (r: &'static str)
        ensures
            r@ == self.text(),
    {
        match self {
            OutputDspProfileError::InvalidSampleRate => "sample rate must be finite and between 8 kHz and 384 kHz",
            OutputDspProfileError::InvalidChannelCount => "channel count must be between 1 and 32",
            OutputDspProfileError::InvalidGain => "gain values must be finite and between -24 dB and +24 dB",
            OutputDspProfileError::InvalidFrequency => "filter or enhancement frequency is outside the usable audio band",
            OutputDspProfileError::InvalidQ => "Q must be finite and between 0.1 and 18",
            OutputDspProfileError::InvalidSlope => "filter slope must be 6, 12, 18, 24, 36, or 48 dB/octave",
            OutputDspProfileError::InvalidLimiterCeiling => "limiter ceiling must be finite and between -12 dBFS and 0 dBFS",
        }
    }
}

/// The filter slopes a profile may use, in dB per octave.
pub open spec fn allowed_slope(slope: u8) -> bool {
    slope == 6 || slope == 12 || slope == 18 || slope == 24 || slope == 36 || slope == 48
}

pub fn check_slope(slope: u8) -> (r: Result<(), OutputDspProfileError>)
    ensures
        r is Ok <==> allowed_slope(slope),
        r is Err ==> r == Err::<(), OutputDspProfileError>(OutputDspProfileError::InvalidSlope),
{
    if slope == 6 || slope == 12 || slope == 18 || slope == 24 || slope == 36 || slope == 48 {
        Ok(())
    } else {
        Err(OutputDspProfileError::InvalidSlope)
    }
}

} // verus!
