//! Device Control Strings: which kind a DCS is (Sixel or DECDLD), the bytes
//! collected while it lasts, and what its end hands over.

use vstd::prelude::*;
use crate::drcs::{begin_decdld, decdld_begun, decdld_header, first_values, DecdldHeader, DrcsFontStore};

verus! {

/// The kind of DCS in progress.
#[derive(Debug, Clone, Copy, PartialEq, Eq, Structural)]
pub enum DcsMode {
    /// No DCS, or one the terminal does not handle.
    Idle,
    /// A Sixel image (final `q`).
    Sixel,
    /// A DECDLD soft font (final `{`), with its header.
    Decdld(DecdldHeader),
}

/// What the end of a DCS hands over.
#[derive(Debug)]
pub enum DcsPayload {
    Nothing,
    /// The Sixel data, to decode into an image at the cursor.
    Sixel(Vec<u8>),
    /// The DECDLD glyph data and its header.
    Decdld(DecdldHeader, Vec<u8>),
}

/// The DCS state: its kind and the bytes collected so far.
pub struct DcsCollector {
    mode: DcsMode,
    data: Vec<u8>,
}

/// The collector as plain values.
pub struct DcsState {
    pub mode: DcsMode,
    pub data: Seq<u8>,
}

impl View for DcsCollector {
    type V = DcsState;

    closed spec fn view(&self) -> DcsState {
        DcsState { mode: self.mode, data: self.data@ }
    }
}

/// The mode a DCS with final character `action` selects (for DECDLD, with
/// the header its parameters give).
pub open spec fn hooked_mode(groups: Seq<Seq<u16>>, action: char) -> DcsMode {
    if action == 'q' {
        DcsMode::Sixel
    } else if action == '{' {
        DcsMode::Decdld(decdld_header(first_values(groups)))
    } else {
        DcsMode::Idle
    }
}

impl DcsCollector {
    pub fn new() -> (c: Self)
        ensures
            c@.mode == DcsMode::Idle,
            c@.data == Seq::<u8>::empty(),
    {
        DcsCollector { mode: DcsMode::Idle, data: Vec::new() }
    }

    /// The start of a DCS: Sixel and DECDLD start collecting afresh (a
    /// DECDLD first erases the font when its header asks for it); any
    /// other kind is not collected.
    pub fn hook(&mut self, groups: &Vec<Vec<u16>>, action: char, fonts: &mut DrcsFontStore)
        ensures
            final(self)@.mode == hooked_mode(groups@.map_values(|g: Vec<u16>| g@), action),
            (action == 'q' || action == '{') ==> final(self)@.data == Seq::<u8>::empty(),
            !(action == 'q' || action == '{') ==> final(self)@.data == old(self)@.data,
            final(fonts)@ == (if action == '{' {
                decdld_begun(
                    old(fonts)@,
                    decdld_header(first_values(groups@.map_values(|g: Vec<u16>| g@))),
                )
            } else {
                old(fonts)@
            }),
    {
        if action == 'q' {
            self.mode = DcsMode::Sixel;
            self.data.clear();
        } else if action == '{' {
            let hd = begin_decdld(groups, fonts);
            self.mode = DcsMode::Decdld(hd);
            self.data.clear();
        } else {
            self.mode = DcsMode::Idle;
        }
    }

    /// A data byte of the DCS: kept while a Sixel or DECDLD is collected.
    pub fn put(&mut self, byte: u8)
        ensures
            final(self)@.mode == old(self)@.mode,
            final(self)@.data == (if old(self)@.mode == DcsMode::Idle {
                old(self)@.data
            } else {
                old(self)@.data.push(byte)
            }),
    {
        match self.mode {
            DcsMode::Idle => {},
            _ => self.data.push(byte),
        }
    }

    /// The end of the DCS: the collected data goes out with the kind it
    /// belongs to, and the collector returns to no DCS.
    pub fn unhook(&mut self) -> (p: DcsPayload)
        ensures
            final(self)@.mode == DcsMode::Idle,
            match old(self)@.mode {
                DcsMode::Idle => p is Nothing && final(self)@.data == old(self)@.data,
                DcsMode::Sixel => p matches DcsPayload::Sixel(d) && d@ == old(self)@.data
                    && final(self)@.data == Seq::<u8>::empty(),
                DcsMode::Decdld(hd) => p matches DcsPayload::Decdld(h, d) && h == hd && d@
                    == old(self)@.data && final(self)@.data == Seq::<u8>::empty(),
            },
    {
        let mode = self.mode;
        self.mode = DcsMode::Idle;
        match mode {
            DcsMode::Idle => DcsPayload::Nothing,
            DcsMode::Sixel => {
                let mut data = Vec::new();
                std::mem::swap(&mut data, &mut self.data);
                DcsPayload::Sixel(data)
            },
            DcsMode::Decdld(hd) => {
                let mut data = Vec::new();
                std::mem::swap(&mut data, &mut self.data);
                DcsPayload::Decdld(hd, data)
            },
        }
    }
}

/// A DCS is collected by its final character: `q` is a Sixel image, `{`
/// a DECDLD soft font with the header its parameters give; any other final
/// is not collected, and its bytes are dropped.
pub proof fn lemma_dcs_kinds(groups: Seq<Seq<u16>>, action: char)
    ensures
        hooked_mode(groups, 'q') == DcsMode::Sixel,
        hooked_mode(groups, '{') == DcsMode::Decdld(decdld_header(first_values(groups))),
        (action != 'q' && action != '{') ==> hooked_mode(groups, action) == DcsMode::Idle,
{
}

} // verus!
