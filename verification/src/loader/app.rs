//! Application records: finding them in an image and staging their code.
//!
//! The image is a read-only view of the flash with an explicit length, and
//! positions in it count from its first byte. Every read is checked against
//! the length of the view.

use crate::loader::blob::be_value;
use crate::loader::blob::bytes_to_u32;
use crate::loader::blob::bytes_to_u64;
use crate::loader::blob::LoadError;
use crate::loader::blob::APP_MAGIC;
use crate::loader::blob::CONTAINER_HEADER_SIZE;
use crate::loader::blob::CONTAINER_MAGIC;
use crate::loader::blob::HEADER_SIZE;
use vstd::prelude::*;
use vstd::slice::slice_subrange;

verus! {

/// Address of the execution window of the first application.
pub const RUN_START: usize = 0x4010_0000;

/// Distance between the execution windows of two applications in a row,
/// and so the largest application that can be staged.
pub const RUN_STRIDE: usize = 0x1_0000;

/// The magic number of the record at `pos`.
pub open spec fn magic_at(blob: Seq<u8>, pos: int) -> nat {
    be_value(blob.subrange(pos, pos + 4))
}

/// The size that the header of the record at `pos` announces.
pub open spec fn size_at(blob: Seq<u8>, pos: int) -> nat {
    be_value(blob.subrange(pos + 4, pos + 12))
}

/// What the header at `pos` says: the size of the code that it announces.
/// Only the twelve bytes of the header decide. A header is refused as
/// truncated when the image ends before its last byte, and for its magic
/// when that is not [`APP_MAGIC`]. Whether the code that it announces is
/// there is found out where the code is read.
pub open spec fn record_at(blob: Seq<u8>, pos: nat) -> Result<nat, LoadError> {
    if pos + HEADER_SIZE > blob.len() {
        Err(LoadError::Truncated)
    } else if magic_at(blob, pos as int) != APP_MAGIC {
        Err(LoadError::BadMagic(magic_at(blob, pos as int) as u32))
    } else {
        Ok(size_at(blob, pos as int))
    }
}

/// The code of the record of `size` bytes at `pos`.
pub open spec fn code_at(blob: Seq<u8>, pos: nat, size: nat) -> Seq<u8> {
    blob.subrange(pos + HEADER_SIZE, pos + HEADER_SIZE + size)
}

/// What an [`AppInfo`] holds, as mathematical values.
pub struct AppInfoView {
    /// Position of the record in the image.
    pub app_addr: nat,
    /// Size of the application's code in bytes.
    pub app_size: nat,
}

impl AppInfoView {
    /// The record, header and code, lies inside an image of `len` bytes.
    pub open spec fn fits(self, len: nat) -> bool {
        self.app_addr + HEADER_SIZE + self.app_size <= len
    }
}

/// Where one application lies in the image.
pub struct AppInfo {
    app_addr: usize,
    app_size: u64,
}

impl View for AppInfo {
    type V = AppInfoView;

    closed spec fn view(&self) -> AppInfoView {
        AppInfoView { app_addr: self.app_addr as nat, app_size: self.app_size as nat }
    }
}

impl AppInfo {
    /// Creates the description of an empty application at position zero.
    pub fn new() -> (r: Self)
        ensures
            r@ == (AppInfoView { app_addr: 0, app_size: 0 }),
    {
        Self { app_addr: 0, app_size: 0 }
    }

    /// Reads the header of the record at `app_addr` and takes its position
    /// and the size that it announces. Nothing but the header is read: the
    /// call succeeds wherever the twelve bytes lie inside `blob` and open
    /// with [`APP_MAGIC`]. Fails, and leaves `self` as it was, where they do
    /// not: see [`record_at`].
    pub fn init(&mut self, blob: &[u8], app_addr: usize) -> (r: Result<(), LoadError>)
        ensures
            match record_at(blob@, app_addr as nat) {
                Ok(size) => r == Ok::<(), LoadError>(()) && final(self)@ == (AppInfoView {
                    app_addr: app_addr as nat,
                    app_size: size,
                }),
                Err(e) => r == Err::<(), LoadError>(e) && final(self)@ == old(self)@,
            },
            r is Ok <==> app_addr + HEADER_SIZE <= blob@.len() && magic_at(blob@, app_addr as int)
                == APP_MAGIC,
    {
        let len: usize = blob.len();
        if len < HEADER_SIZE || app_addr > len - HEADER_SIZE {
            return Err(LoadError::Truncated);
        }
        let magic: u32 = bytes_to_u32(slice_subrange(blob, app_addr, app_addr + 4));
        if magic != APP_MAGIC {
            return Err(LoadError::BadMagic(magic));
        }
        let size: u64 = bytes_to_u64(slice_subrange(blob, app_addr + 4, app_addr + HEADER_SIZE));
        self.app_addr = app_addr;
        self.app_size = size;
        Ok(())
    }

    /// Position of the record in the image.
    pub fn app_addr(&self) -> (r: usize)
        ensures
            r == self@.app_addr,
    {
        self.app_addr
    }

    /// Size of the application's code in bytes, as the header announces
    /// it: any number of eight bytes.
    pub fn app_size(&self) -> (r: u64)
        ensures
            r == self@.app_size,
    {
        self.app_size
    }

    /// The application's code, if the record lies inside `blob`: `None`
    /// where the image ends before the code that the header announces.
    pub fn content<'a>(&self, blob: &'a [u8]) -> (r: Option<&'a [u8]>)
        ensures
            match r {
                Some(code) => self@.fits(blob@.len()) && code@ == code_at(
                    blob@,
                    self@.app_addr,
                    self@.app_size,
                ),
                None => !self@.fits(blob@.len()),
            },
    {
        let len: usize = blob.len();
        if len < HEADER_SIZE || self.app_addr > len - HEADER_SIZE {
            return None;
        }
        let room: usize = len - HEADER_SIZE - self.app_addr;
        if self.app_size > room as u64 {
            return None;
        }
        let from: usize = self.app_addr + HEADER_SIZE;
        Some(slice_subrange(blob, from, from + self.app_size as usize))
    }

    /// Stages the application: copies its code from `blob` to the start of
    /// the execution window `window` and leaves the rest of the window as it
    /// was. Running the staged code is the caller's part.
    ///
    /// Fails, and leaves the window untouched, with `Truncated` where the
    /// record does not lie inside `blob`, and with `Oversized` where the code
    /// is longer than the window.
    pub fn excute_code(&self, blob: &[u8], window: &mut [u8]) -> (r: Result<(), LoadError>)
        ensures
            !self@.fits(blob@.len()) ==> r == Err::<(), LoadError>(LoadError::Truncated),
            self@.fits(blob@.len()) && self@.app_size > old(window)@.len() ==> r == Err::<
                (),
                LoadError,
            >(LoadError::Oversized),
            self@.fits(blob@.len()) && self@.app_size <= old(window)@.len() ==> r == Ok::<
                (),
                LoadError,
            >(()),
            r is Err ==> final(window)@ == old(window)@,
            r is Ok ==> final(window)@ == code_at(blob@, self@.app_addr, self@.app_size) + old(
                window,
            )@.subrange(self@.app_size as int, old(window)@.len() as int),
    {
        let code: &[u8] = match self.content(blob) {
            Some(code) => code,
            None => {
                return Err(LoadError::Truncated);
            },
        };
        let size: usize = code.len();
        if size > window.len() {
            return Err(LoadError::Oversized);
        }
        let mut at: usize = 0;
        while at < size
            invariant
                at <= size,
                size == code@.len(),
                size <= window@.len(),
                window@.len() == old(window)@.len(),
                window@ == code@.subrange(0, at as int) + old(window)@.subrange(
                    at as int,
                    old(window)@.len() as int,
                ),
            decreases size - at,
        {
            let byte: u8 = code[at];
            window[at] = byte;
            at = at + 1;
        }
        proof {
            assert(code@.subrange(0, size as int) =~= code@);
        }
        Ok(())
    }
}

/// Address of the execution window of the application with this index:
/// windows follow one another at a fixed stride.
pub open spec fn run_start_spec(index: nat) -> nat {
    (RUN_START + index * RUN_STRIDE) as nat
}

/// Address of the execution window of the application with this index, or
/// `None` where the address is beyond the machine word.
pub fn run_start(index: u32) -> (r: Option<usize>)
    ensures
        r == if run_start_spec(index as nat) <= usize::MAX {
            Some(run_start_spec(index as nat) as usize)
        } else {
            None
        },
{
    let offset: u64 = index as u64 * 0x1_0000;
    let addr: u64 = RUN_START as u64 + offset;
    if addr > usize::MAX as u64 {
        None
    } else {
        Some(addr as usize)
    }
}

/// What a [`Loader`] holds, as mathematical values.
pub struct LoaderView {
    /// Position in the image of the next record.
    pub cur_addr: nat,
    /// Number of applications handed out so far.
    pub loaded: nat,
    /// Number of applications the image announces.
    pub app_cnt: nat,
}

impl LoaderView {
    /// The state before the first application of `blob`. An image that
    /// opens with [`CONTAINER_MAGIC`] announces its count in the next four
    /// bytes and its records follow; any other image is taken as one record
    /// at position zero. An image too short for what has to be read is
    /// truncated.
    pub open spec fn start(blob: Seq<u8>) -> Result<LoaderView, LoadError> {
        if blob.len() < 4 {
            Err(LoadError::Truncated)
        } else if magic_at(blob, 0) != CONTAINER_MAGIC {
            Ok(LoaderView { cur_addr: 0, loaded: 0, app_cnt: 1 })
        } else if blob.len() < CONTAINER_HEADER_SIZE {
            Err(LoadError::Truncated)
        } else {
            Ok(
                LoaderView {
                    cur_addr: CONTAINER_HEADER_SIZE as nat,
                    loaded: 0,
                    app_cnt: be_value(blob.subrange(4, 8)),
                },
            )
        }
    }

    /// Not more applications were handed out than the image announces.
    pub open spec fn wf(self) -> bool {
        self.loaded <= self.app_cnt
    }

    /// What `next_app` returns: nothing once every announced application
    /// was handed out, else the record at the cursor or the reason why none
    /// lies there. A record whose code would take the cursor past the end of
    /// the image is truncated.
    pub open spec fn next(self, blob: Seq<u8>) -> Result<Option<AppInfoView>, LoadError> {
        if self.loaded >= self.app_cnt {
            Ok(None)
        } else {
            match record_at(blob, self.cur_addr) {
                Ok(size) => if self.cur_addr + HEADER_SIZE + size > blob.len() {
                    Err(LoadError::Truncated)
                } else {
                    Ok(Some(AppInfoView { app_addr: self.cur_addr, app_size: size }))
                },
                Err(e) => Err(e),
            }
        }
    }

    /// The state after `next_app`: past the record that was handed out, the
    /// cursor has moved on by the header and the code; where none was handed
    /// out, nothing has changed.
    pub open spec fn advanced(self, blob: Seq<u8>) -> LoaderView {
        match self.next(blob) {
            Ok(Some(app)) => LoaderView {
                cur_addr: (self.cur_addr + HEADER_SIZE + app.app_size) as nat,
                loaded: self.loaded + 1,
                app_cnt: self.app_cnt,
            },
            _ => self,
        }
    }
}

/// Walks the applications of an image in the order in which they lie.
pub struct Loader {
    cur_addr: usize,
    loaded: u32,
    app_cnt: u32,
}

impl View for Loader {
    type V = LoaderView;

    closed spec fn view(&self) -> LoaderView {
        LoaderView {
            cur_addr: self.cur_addr as nat,
            loaded: self.loaded as nat,
            app_cnt: self.app_cnt as nat,
        }
    }
}

impl Loader {
    /// Reads the opening of `blob` and stands before its first application:
    /// see [`LoaderView::start`].
    pub fn new(blob: &[u8]) -> (r: Result<Loader, LoadError>)
        ensures
            match LoaderView::start(blob@) {
                Ok(state) => r matches Ok(loader) && loader@ == state && loader@.wf(),
                Err(e) => r matches Err(found) && found == e,
            },
    {
        if blob.len() < 4 {
            return Err(LoadError::Truncated);
        }
        let magic: u32 = bytes_to_u32(slice_subrange(blob, 0, 4));
        if magic != CONTAINER_MAGIC {
            return Ok(Loader { cur_addr: 0, loaded: 0, app_cnt: 1 });
        }
        if blob.len() < CONTAINER_HEADER_SIZE {
            return Err(LoadError::Truncated);
        }
        let app_cnt: u32 = bytes_to_u32(slice_subrange(blob, 4, 8));
        Ok(Loader { cur_addr: CONTAINER_HEADER_SIZE, loaded: 0, app_cnt })
    }

    /// Hands out the next application of `blob` and moves past it, or
    /// returns `None` once all were handed out. Fails, and stays where it
    /// is, where no header with the right magic lies at the cursor, and
    /// where the image ends before the code that the header announces.
    pub fn next_app(&mut self, blob: &[u8]) -> (r: Result<Option<AppInfo>, LoadError>)
        requires
            old(self)@.wf(),
        ensures
            match old(self)@.next(blob@) {
                Ok(Some(app)) => r matches Ok(Some(found)) && found@ == app,
                Ok(None) => r matches Ok(None),
                Err(e) => r matches Err(found) && found == e,
            },
            final(self)@ == old(self)@.advanced(blob@),
            final(self)@.wf(),
            r matches Ok(Some(found)) ==> found@.fits(blob@.len()),
    {
        if self.loaded >= self.app_cnt {
            return Ok(None);
        }
        let mut app = AppInfo::new();
        match app.init(blob, self.cur_addr) {
            Err(e) => Err(e),
            Ok(()) => {
                let room: usize = blob.len() - HEADER_SIZE - self.cur_addr;
                if app.app_size() > room as u64 {
                    return Err(LoadError::Truncated);
                }
                self.cur_addr = self.cur_addr + HEADER_SIZE + app.app_size() as usize;
                self.loaded = self.loaded + 1;
                Ok(Some(app))
            },
        }
    }

    /// Position in the image of the next record.
    pub fn cur_addr(&self) -> (r: usize)
        ensures
            r == self@.cur_addr,
    {
        self.cur_addr
    }

    /// Number of applications handed out so far.
    pub fn loaded(&self) -> (r: u32)
        ensures
            r == self@.loaded,
    {
        self.loaded
    }

    /// Number of applications the image announces.
    pub fn app_cnt(&self) -> (r: u32)
        ensures
            r == self@.app_cnt,
    {
        self.app_cnt
    }
}

/// The header alone decides what `init` finds. Where the twelve bytes lie
/// inside the image, a record is found exactly when they open with
/// [`APP_MAGIC`], its size is the number that the other eight spell, and
/// two images with the same twelve bytes give the same answer, whatever
/// else they hold and however long they are.
pub proof fn law_header_decides(blob: Seq<u8>, pos: nat, other: Seq<u8>, other_pos: nat)
    requires
        pos + HEADER_SIZE <= blob.len(),
        other_pos + HEADER_SIZE <= other.len(),
        blob.subrange(pos as int, pos as int + 12) == other.subrange(
            other_pos as int,
            other_pos as int + 12,
        ),
    ensures
        record_at(blob, pos) is Ok <==> magic_at(blob, pos as int) == APP_MAGIC,
        record_at(blob, pos) is Ok ==> record_at(blob, pos) == Ok::<nat, LoadError>(
            size_at(blob, pos as int),
        ),
        record_at(blob, pos) == record_at(other, other_pos),
{
    let header = blob.subrange(pos as int, pos as int + 12);
    let other_header = other.subrange(other_pos as int, other_pos as int + 12);
    assert(blob.subrange(pos as int, pos as int + 4) =~= header.subrange(0, 4));
    assert(blob.subrange(pos as int + 4, pos as int + 12) =~= header.subrange(4, 12));
    assert(other.subrange(other_pos as int, other_pos as int + 4) =~= other_header.subrange(0, 4));
    assert(other.subrange(other_pos as int + 4, other_pos as int + 12) =~= other_header.subrange(4, 12));
}

/// An image that opens with neither magic number is given up for its magic,
/// whatever follows the first four bytes: nothing behind them decides.
pub proof fn law_foreign_magic_aborts(blob: Seq<u8>)
    requires
        blob.len() >= HEADER_SIZE,
        magic_at(blob, 0) != APP_MAGIC,
        magic_at(blob, 0) != CONTAINER_MAGIC,
    ensures
        LoaderView::start(blob) == Ok::<LoaderView, LoadError>(
            LoaderView { cur_addr: 0, loaded: 0, app_cnt: 1 },
        ),
        (LoaderView { cur_addr: 0, loaded: 0, app_cnt: 1 }).next(blob) == Err::<
            Option<AppInfoView>,
            LoadError,
        >(LoadError::BadMagic(magic_at(blob, 0) as u32)),
{
}

/// Each application handed out lies at the cursor with the size that its
/// header announces, inside the image, and moves the cursor on by exactly
/// the header and that size.
pub proof fn law_cursor_advances(state: LoaderView, blob: Seq<u8>, app: AppInfoView)
    requires
        state.wf(),
        state.next(blob) == Ok::<Option<AppInfoView>, LoadError>(Some(app)),
    ensures
        app.app_addr == state.cur_addr,
        app.app_size == size_at(blob, state.cur_addr as int),
        magic_at(blob, state.cur_addr as int) == APP_MAGIC,
        app.fits(blob.len()),
        state.advanced(blob).cur_addr == state.cur_addr + HEADER_SIZE + app.app_size,
        state.advanced(blob).loaded == state.loaded + 1,
        state.advanced(blob).app_cnt == state.app_cnt,
        state.advanced(blob).wf(),
{
}

} // verus!
