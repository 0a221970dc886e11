//! Driver for daisy-chained constant-current LED driver chips that share one
//! shift-register image over a synchronous serial bus with a separate latch
//! line.
//!
//! The image is an ordered sequence of bits, `chain_size *
//! channels_per_device * word_bits` long.  Channels are addressed from the
//! end of the image: the last channel in the logical numbering occupies the
//! first bits physically shifted out.  Committing the image serialises it
//! most-significant-bit first within each byte and pulses the latch
//! high-then-low.

pub mod bits;
pub mod error;
pub mod interface;

use vstd::prelude::*;

use crate::bits::{pack, pack_bits, spec_get_pwm, spec_set_pwm, val_bit, word_from_bits};
use crate::error::Error;
use crate::interface::{Bus, LatchPin};

verus! {

/// A driver for a chain of identical devices, generic over the device
/// geometry: `WORD` bits per channel word and `CHANNELS` channels per
/// device.  It exclusively owns one shift-register image, one bus handle
/// and one latch-pin handle for its entire lifetime.
pub struct TLC59xxx<SPI, LAT, const WORD: usize, const CHANNELS: usize> {
    spi: SPI,
    lat: LAT,
    shift_register: Vec<bool>,
    bus_log: Ghost<Seq<Seq<u8>>>,
    latch_log: Ghost<Seq<bool>>,
}

/// The 24-channel, 12-bit-word variant.
pub type TLC5947<SPI, LAT> = TLC59xxx<SPI, LAT, 12, 24>;

/// The 12-channel, 16-bit-word variant.
pub type TLC59711<SPI, LAT> = TLC59xxx<SPI, LAT, 16, 12>;

impl<SPI: Bus, LAT: LatchPin> TLC5947<SPI, LAT> {
    /// A driver for a chain of `chain_size` devices with 24 channels of
    /// 12-bit words each, owning `spi` and `lat`, its image zero filled.
    pub fn new(spi: SPI, lat: LAT, chain_size: usize) -> (d: TLC5947<SPI, LAT>)
        requires
            24 * chain_size * 12 + 7 <= usize::MAX,
        ensures
            d.wf(),
            d.image() == Seq::new((24 * chain_size * 12) as nat, |i: int| false),
            d.bus() == spi,
            d.latch() == lat,
            d.bus_events() == Seq::<Seq<u8>>::empty(),
            d.latch_events() == Seq::<bool>::empty(),
    {
        Self::new_device(spi, lat, chain_size)
    }
}

impl<SPI: Bus, LAT: LatchPin> TLC59711<SPI, LAT> {
    /// A driver for a chain of `chain_size` devices with 12 channels of
    /// 16-bit words each, owning `spi` and `lat`, its image zero filled.
    pub fn new(spi: SPI, lat: LAT, chain_size: usize) -> (d: TLC59711<SPI, LAT>)
        requires
            12 * chain_size * 16 + 7 <= usize::MAX,
        ensures
            d.wf(),
            d.image() == Seq::new((12 * chain_size * 16) as nat, |i: int| false),
            d.bus() == spi,
            d.latch() == lat,
            d.bus_events() == Seq::<Seq<u8>>::empty(),
            d.latch_events() == Seq::<bool>::empty(),
    {
        Self::new_device(spi, lat, chain_size)
    }
}

impl<SPI: Bus, LAT: LatchPin, const WORD: usize, const CHANNELS: usize> TLC59xxx<
    SPI,
    LAT,
    WORD,
    CHANNELS,
> {
    /// The shift-register image, as the sequence of bits it holds.
    pub closed spec fn image(&self) -> Seq<bool> {
        self.shift_register@
    }

    /// The bus handle the driver owns.
    pub closed spec fn bus(&self) -> SPI {
        self.spi
    }

    /// The latch-pin handle the driver owns.
    pub closed spec fn latch(&self) -> LAT {
        self.lat
    }

    /// The byte sequences of the bus writes this driver has issued so far,
    /// oldest first, failed transfers included.
    pub closed spec fn bus_events(&self) -> Seq<Seq<u8>> {
        self.bus_log@
    }

    /// The latch transitions this driver has issued so far, oldest first,
    /// `true` for high; failed transitions included.
    pub closed spec fn latch_events(&self) -> Seq<bool> {
        self.latch_log@
    }

    /// How many channels the whole chain addresses.
    pub open spec fn total_channels(&self) -> nat {
        self.image().len() / (WORD as nat)
    }

    /// The image is well formed: the word width is a positive number of
    /// bits that a channel word can hold, and the image length is a whole
    /// number of words.
    pub open spec fn wf(&self) -> bool {
        &&& 0 < WORD <= 16
        &&& self.image().len() % (WORD as nat) == 0
        &&& self.image().len() + 7 <= usize::MAX
    }

    fn new_device(spi: SPI, lat: LAT, chain_size: usize) -> (d: Self)
        requires
            0 < WORD <= 16,
            CHANNELS * chain_size * WORD + 7 <= usize::MAX,
        ensures
            d.wf(),
            d.image() == Seq::new((CHANNELS * chain_size * WORD) as nat, |i: int| false),
            d.bus() == spi,
            d.latch() == lat,
            d.bus_events() == Seq::<Seq<u8>>::empty(),
            d.latch_events() == Seq::<bool>::empty(),
    {
        proof {
            assert(CHANNELS * chain_size <= CHANNELS * chain_size * WORD && (CHANNELS
                * chain_size) * WORD == CHANNELS * chain_size * WORD && (CHANNELS * chain_size
                * WORD) % (WORD as int) == 0) by (nonlinear_arith)
                requires
                    0 < WORD,
                    0 <= CHANNELS,
                    0 <= chain_size,
            ;
        }
        let n: usize = CHANNELS * chain_size * WORD;
        let shift_register = vec![false; n];
        let d = TLC59xxx {
            spi,
            lat,
            shift_register,
            bus_log: Ghost(Seq::empty()),
            latch_log: Ghost(Seq::empty()),
        };
        proof {
            assert(d.image() =~= Seq::new((CHANNELS * chain_size * WORD) as nat, |i: int| false));
        }
        d
    }

    /// Sets a channel to a given duty-cycle word.
    ///
    /// The word of `channel` is addressed from the end of the image and is
    /// overwritten with the `WORD`-bit encoding of `val`, least-significant
    /// bit at the lowest index; no other bit of the image changes.  Out of
    /// range arguments are contract violations, ruled out by the
    /// preconditions: `val` must fit in a `WORD`-bit word and `channel` must
    /// be below the channel count of the whole chain.
    pub fn set_pwm(&mut self, channel: usize, val: u16)
        requires
            old(self).wf(),
            (channel as nat) < old(self).total_channels(),
            (val as u32) >> (WORD as u32) == 0,
        ensures
            final (self).wf(),
            final (self).image() == spec_set_pwm(
                old(self).image(),
                WORD as nat,
                channel as nat,
                val,
            ),
            final (self).bus() == old(self).bus(),
            final (self).latch() == old(self).latch(),
            final (self).bus_events() == old(self).bus_events(),
            final (self).latch_events() == old(self).latch_events(),
    {
        let len = self.shift_register.len();
        proof {
            lemma_channel_bits_in_range(len as int, WORD as int, channel as int);
        }
        let end = len - channel * WORD;
        let start = end - WORD;
        let mut t: usize = 0;
        while t < WORD
            invariant
                t <= WORD,
                WORD <= 16,
                start + WORD == end,
                end <= len,
                len == self.shift_register@.len(),
                self.shift_register@.len() == old(self).shift_register@.len(),
                forall|j: int|
                    0 <= j < len && !(start <= j < start + t) ==> self.shift_register@[j] == old(
                        self,
                    ).shift_register@[j],
                forall|j: int|
                    start <= j < start + t ==> self.shift_register@[j] == val_bit(
                        val,
                        (j - start) as u16,
                    ),
                self.spi == old(self).spi,
                self.lat == old(self).lat,
                self.bus_log == old(self).bus_log,
                self.latch_log == old(self).latch_log,
            decreases WORD - t,
        {
            let b = (val >> (t as u16)) & 1 == 1;
            self.shift_register.set(start + t, b);
            t += 1;
        }
        proof {
            assert(final (self).image() =~= spec_set_pwm(
                old(self).image(),
                WORD as nat,
                channel as nat,
                val,
            ));
        }
    }

    /// Sets a channel as [`Self::set_pwm`] does, after checking its
    /// preconditions.  When `channel` or `val` is out of range it returns
    /// `false` and leaves the image, the bus and the latch pin untouched;
    /// otherwise it writes the word and returns `true`.
    pub fn try_set_pwm(&mut self, channel: usize, val: u16) -> (ok: bool)
        requires
            old(self).wf(),
        ensures
            final (self).wf(),
            ok <==> ((channel as nat) < old(self).total_channels() && (val as u32) >> (WORD
                as u32) == 0),
            ok ==> final (self).image() == spec_set_pwm(
                old(self).image(),
                WORD as nat,
                channel as nat,
                val,
            ),
            !ok ==> final (self).image() == old(self).image(),
            final (self).bus() == old(self).bus(),
            final (self).latch() == old(self).latch(),
            final (self).bus_events() == old(self).bus_events(),
            final (self).latch_events() == old(self).latch_events(),
    {
        if channel < self.shift_register.len() / WORD && (val as u32) >> (WORD as u32) == 0 {
            self.set_pwm(channel, val);
            true
        } else {
            false
        }
    }

    /// Sets the three adjacent channels of an rgb light, channels `3 *
    /// light` through `3 * light + 2`, to the red, green and blue words of
    /// `rgb`, in that order, exactly as three [`Self::set_pwm`] calls would.
    pub fn set_rgb(&mut self, light: usize, rgb: (u16, u16, u16))
        requires
            old(self).wf(),
            3 * (light as nat) + 2 < old(self).total_channels(),
            (rgb.0 as u32) >> (WORD as u32) == 0,
            (rgb.1 as u32) >> (WORD as u32) == 0,
            (rgb.2 as u32) >> (WORD as u32) == 0,
        ensures
            final (self).wf(),
            final (self).image() == spec_set_pwm(
                spec_set_pwm(
                    spec_set_pwm(old(self).image(), WORD as nat, 3 * light as nat, rgb.0),
                    WORD as nat,
                    3 * light as nat + 1,
                    rgb.1,
                ),
                WORD as nat,
                3 * light as nat + 2,
                rgb.2,
            ),
            final (self).bus() == old(self).bus(),
            final (self).latch() == old(self).latch(),
            final (self).bus_events() == old(self).bus_events(),
            final (self).latch_events() == old(self).latch_events(),
    {
        let image_bits = self.shift_register.len();
        proof {
            assert((image_bits as nat) / (WORD as nat) <= image_bits as nat) by (nonlinear_arith)
                requires
                    0 < WORD,
            ;
        }
        let light = light * 3;
        self.set_pwm(light, rgb.0);
        self.set_pwm(light + 1, rgb.1);
        self.set_pwm(light + 2, rgb.2);
    }

    /// Commits the image to the devices.
    ///
    /// The whole image is packed into bytes, shift-in bit order preserved,
    /// and issued as exactly one bus write; a failed transfer is reported
    /// as [`Error::Spi`] and the latch is then left alone, so that the
    /// output registers never latch a partial transfer.  After a successful
    /// transfer the latch pulse is issued, a transition high then a
    /// transition low; the low transition is attempted even when the high
    /// transition failed, and a failure of either is reported as
    /// [`Error::Lat`].  The image itself is only read.
    pub fn write(&mut self) -> (r: Result<(), Error>)
        requires
            old(self).wf(),
        ensures
            final (self).wf(),
            final (self).image() == old(self).image(),
            final (self).bus_events() == old(self).bus_events().push(pack_bits(old(self).image())),
            r == Err::<(), Error>(Error::Spi) ==> final (self).latch_events() == old(
                self,
            ).latch_events(),
            r != Err::<(), Error>(Error::Spi) ==> final (self).latch_events() == old(
                self,
            ).latch_events().push(true).push(false),
    {
        let bytes = pack(&self.shift_register);
        self.bus_log = Ghost(self.bus_log@.push(bytes@));
        match self.spi.write(bytes) {
            Err(_) => Err(Error::Spi),
            Ok(()) => {
                self.latch_log = Ghost(self.latch_log@.push(true));
                let high = self.lat.set_high();
                self.latch_log = Ghost(self.latch_log@.push(false));
                let low = self.lat.set_low();
                if high.is_err() || low.is_err() {
                    Err(Error::Lat)
                } else {
                    Ok(())
                }
            },
        }
    }

    /// Consumes the driver, handing the bus and latch-pin handles back to
    /// the caller.
    pub fn destroy(self) -> (r: (SPI, LAT))
        ensures
            r.0 == self.bus(),
            r.1 == self.latch(),
    {
        (self.spi, self.lat)
    }

    /// The length of the image in bits.
    pub fn bit_len(&self) -> (n: usize)
        ensures
            n == self.image().len(),
    {
        self.shift_register.len()
    }

    /// One bit of the image.
    pub fn get_bit(&self, i: usize) -> (b: bool)
        requires
            (i as nat) < self.image().len(),
        ensures
            b == self.image()[i as int],
    {
        self.shift_register[i]
    }

    /// Reads the word of a channel back out of the image.
    pub fn get_pwm(&self, channel: usize) -> (v: u16)
        requires
            self.wf(),
            (channel as nat) < self.total_channels(),
        ensures
            v == spec_get_pwm(self.image(), WORD as nat, channel as nat),
    {
        let len = self.shift_register.len();
        proof {
            lemma_channel_bits_in_range(len as int, WORD as int, channel as int);
        }
        let start = len - channel * WORD - WORD;
        let mut v: u16 = 0;
        let mut t: usize = 0;
        while t < WORD
            invariant
                t <= WORD,
                WORD <= 16,
                start + WORD <= len,
                len == self.shift_register@.len(),
                v == word_from_bits(self.image(), start as int, t as nat),
            decreases WORD - t,
        {
            let prior = v;
            if self.shift_register[start + t] {
                v = v | (1u16 << (t as u16));
            } else {
                proof {
                    assert(prior | 0u16 == prior) by (bit_vector);
                }
            }
            t += 1;
        }
        proof {
            assert((channel as int + 1) * (WORD as int) == channel as int * (WORD as int) + (
            WORD as int)) by (nonlinear_arith);
        }
        v
    }
}

/// A channel below the channel count of a well-formed image owns a word
/// whose bit range lies inside the image.
proof fn lemma_channel_bits_in_range(len: int, word_bits: int, channel: int)
    requires
        0 < word_bits,
        len % word_bits == 0,
        0 <= channel < len / word_bits,
    ensures
        0 <= channel * word_bits,
        channel * word_bits + word_bits <= len,
{
    vstd::arithmetic::div_mod::lemma_fundamental_div_mod(len, word_bits);
    assert(0 <= channel * word_bits && channel * word_bits + word_bits <= word_bits * (len
        / word_bits)) by (nonlinear_arith)
        requires
            0 < word_bits,
            0 <= channel < len / word_bits,
    ;
}

} // verus!
