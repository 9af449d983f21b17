use vstd::prelude::*;

verus! {

/// An opaque color encoded with the sRGB transfer function, one byte per channel.
#[derive(Debug, Clone, Copy, PartialEq, Eq, Structural)]
pub struct Srgb8 {
    red: u8,
    green: u8,
    blue: u8,
}

/// The red, green and blue bytes that a packed `0xRRGGBB` value holds.
pub open spec fn hex_channels(value: u32) -> Seq<u8> {
    seq![((value / 0x1_0000) % 0x100) as u8, ((value / 0x100) % 0x100) as u8, (value % 0x100) as u8]
}

impl Srgb8 {
    /// The channel bytes in red, green, blue order.
    pub closed spec fn spec_channels(self) -> Seq<u8> {
        seq![self.red, self.green, self.blue]
    }

    /// A color has exactly three channels.
    pub proof fn lemma_three_channels(self)
        ensures
            self.spec_channels().len() == 3,
    {
    }

    pub fn from_hex(value: u32) -> (color: Self)
        ensures
            color.spec_channels() == hex_channels(value),
    {
        let red = ((value >> 16) & 0xff) as u8;
        let green = ((value >> 8) & 0xff) as u8;
        let blue = (value & 0xff) as u8;
        assert(red == (value / 0x1_0000) % 0x100) by (bit_vector)
            requires red == ((value >> 16) & 0xff) as u8;
        assert(green == (value / 0x100) % 0x100) by (bit_vector)
            requires green == ((value >> 8) & 0xff) as u8;
        assert(blue == value % 0x100) by (bit_vector)
            requires blue == (value & 0xff) as u8;
        let color = Self::from_channels([red, green, blue]);
        assert(color.spec_channels() =~= hex_channels(value));
        color
    }

    pub fn from_channels(channels: [u8; 3]) -> (color: Self)
        ensures
            color.spec_channels() == channels@,
    {
        let color = Self { red: channels[0], green: channels[1], blue: channels[2] };
        assert(color.spec_channels() =~= channels@);
        color
    }

    pub fn channels(self) -> (channels: [u8; 3])
        ensures
            channels@ == self.spec_channels(),
    {
        let channels = [self.red, self.green, self.blue];
        assert(channels@ =~= self.spec_channels());
        channels
    }

    pub fn red() -> (color: Self)
        ensures
            color.spec_channels() == seq![0xffu8, 0, 0],
    {
        let color = Self::from_channels([0xff, 0, 0]);
        assert(color.spec_channels() =~= seq![0xffu8, 0, 0]);
        color
    }

    pub fn green() -> (color: Self)
        ensures
            color.spec_channels() == seq![0u8, 0xff, 0],
    {
        let color = Self::from_channels([0, 0xff, 0]);
        assert(color.spec_channels() =~= seq![0u8, 0xff, 0]);
        color
    }

    pub fn blue() -> (color: Self)
        ensures
            color.spec_channels() == seq![0u8, 0, 0xff],
    {
        let color = Self::from_channels([0, 0, 0xff]);
        assert(color.spec_channels() =~= seq![0u8, 0, 0xff]);
        color
    }
}

/// The dark gray that every scene is drawn over.
pub fn background() -> (color: Srgb8)
    ensures
        color.spec_channels() == hex_channels(0x18_18_18),
{
    Srgb8::from_hex(0x18_18_18)
}

} // verus!
