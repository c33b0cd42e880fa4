//! Board coordinates: squares, files, ranks and offsets between squares.

use vstd::prelude::*;

verus! {

/// Appending a character to a string, as `String::push` of the standard
/// library does it: the string's characters are followed by the new one.
pub assume_specification[ String::push ](s: &mut String, ch: char)
    ensures
        final(s)@ == old(s)@.push(ch),
;

/// A distance between two squares, counted in square indices.
#[derive(Clone, Copy, Debug, PartialEq, Eq, Structural)]
pub struct FlatSquareOffset {
    pub value: i8,
}

impl FlatSquareOffset {
    /// The offset that goes `files` files to the right and `ranks` ranks up.
    pub fn new(files: i32, ranks: i32) -> (r: Self)
        requires
            -128 <= files + ranks * 8 <= 127,
        ensures
            r.value == files + ranks * 8,
    {
        let offset: i64 = files as i64 + (ranks as i64) * 8;
        Self { value: offset as i8 }
    }

    /// The offset of no distance.
    pub fn default() -> (r: Self)
        ensures
            r.value == 0,
    {
        Self { value: 0 }
    }

    /// The offset of the same distance the other way.
    pub fn neg(&self) -> (r: Self)
        requires
            self.value > -128,
        ensures
            r.value == -self.value,
    {
        Self { value: -self.value }
    }

    /// The distance in square indices.
    pub fn to_i8(&self) -> (r: i8)
        ensures
            r == self.value,
    {
        self.value
    }
}

/// A file of the board, `a` to `h` as 0 to 7.
#[derive(Clone, Copy, Debug, PartialEq, Eq, Structural)]
pub struct File {
    pub index: u32,
}

/// A rank of the board, first to eighth as 0 to 7.
#[derive(Clone, Copy, Debug, PartialEq, Eq, Structural)]
pub struct Rank {
    pub index: u32,
}

/// The letter of a file.
pub open spec fn file_char(index: int) -> char {
    if index == 0 {
        'a'
    } else if index == 1 {
        'b'
    } else if index == 2 {
        'c'
    } else if index == 3 {
        'd'
    } else if index == 4 {
        'e'
    } else if index == 5 {
        'f'
    } else if index == 6 {
        'g'
    } else {
        'h'
    }
}

/// The decimal digit for a value below ten.
pub open spec fn digit_char(d: int) -> char {
    if d == 0 {
        '0'
    } else if d == 1 {
        '1'
    } else if d == 2 {
        '2'
    } else if d == 3 {
        '3'
    } else if d == 4 {
        '4'
    } else if d == 5 {
        '5'
    } else if d == 6 {
        '6'
    } else if d == 7 {
        '7'
    } else if d == 8 {
        '8'
    } else {
        '9'
    }
}

/// The decimal digit for a value below ten.
pub fn digit(d: u8) -> (c: char)
    requires
        d < 10,
    ensures
        c == digit_char(d as int),
{
    if d == 0 {
        '0'
    } else if d == 1 {
        '1'
    } else if d == 2 {
        '2'
    } else if d == 3 {
        '3'
    } else if d == 4 {
        '4'
    } else if d == 5 {
        '5'
    } else if d == 6 {
        '6'
    } else if d == 7 {
        '7'
    } else if d == 8 {
        '8'
    } else {
        '9'
    }
}

impl File {
    /// The file `a`.
    pub fn a() -> (r: Self)
        ensures
            r.index == 0,
    {
        Self { index: 0 }
    }

    /// The file `h`.
    pub fn h() -> (r: Self)
        ensures
            r.index == 7,
    {
        Self { index: 7 }
    }

    /// The file with the given index.
    pub fn new(index: u32) -> (r: Self)
        ensures
            r.index == index,
    {
        Self { index }
    }

    /// The file's index.
    pub fn to_u32(&self) -> (r: u32)
        ensures
            r == self.index,
    {
        self.index
    }

    /// The file with the given index.
    pub fn from_u32(index: u32) -> (r: Self)
        ensures
            r.index == index,
    {
        Self { index }
    }

    /// The file's letter.
    pub fn letter(&self) -> (c: char)
        requires
            self.index < 8,
        ensures
            c == file_char(self.index as int),
    {
        if self.index == 0 {
            'a'
        } else if self.index == 1 {
            'b'
        } else if self.index == 2 {
            'c'
        } else if self.index == 3 {
            'd'
        } else if self.index == 4 {
            'e'
        } else if self.index == 5 {
            'f'
        } else if self.index == 6 {
            'g'
        } else {
            'h'
        }
    }

    /// The file's letter as a string.
    pub fn to_string(&self) -> (s: String)
        requires
            self.index < 8,
        ensures
            s@ == seq![file_char(self.index as int)],
    {
        let mut s = String::new();
        s.push(self.letter());
        s
    }
}

impl Rank {
    /// The first rank.
    pub fn first() -> (r: Self)
        ensures
            r.index == 0,
    {
        Self { index: 0 }
    }

    /// The second rank.
    pub fn second() -> (r: Self)
        ensures
            r.index == 1,
    {
        Self { index: 1 }
    }

    /// The fourth rank.
    pub fn fourth() -> (r: Self)
        ensures
            r.index == 3,
    {
        Self { index: 3 }
    }

    /// The fifth rank.
    pub fn fifth() -> (r: Self)
        ensures
            r.index == 4,
    {
        Self { index: 4 }
    }

    /// The seventh rank.
    pub fn seventh() -> (r: Self)
        ensures
            r.index == 6,
    {
        Self { index: 6 }
    }

    /// The eighth rank.
    pub fn eighth() -> (r: Self)
        ensures
            r.index == 7,
    {
        Self { index: 7 }
    }

    /// The rank with the given index.
    pub fn new(index: u32) -> (r: Self)
        ensures
            r.index == index,
    {
        Self { index }
    }

    /// The rank's index.
    pub fn to_u32(&self) -> (r: u32)
        ensures
            r == self.index,
    {
        self.index
    }

    /// The rank with the given index.
    pub fn from_u32(index: u32) -> (r: Self)
        ensures
            r.index == index,
    {
        Self { index }
    }

    /// The rank's digit as a string.
    pub fn to_string(&self) -> (s: String)
        requires
            self.index < 8,
        ensures
            s@ == seq![digit_char(self.index + 1)],
    {
        let mut s = String::new();
        s.push(digit((self.index + 1) as u8));
        s
    }
}

/// A square of the board by its index: `a1` is 0, `h1` is 7, `a8` is 56 and
/// `h8` is 63. The index 64 stands for "no square".
#[derive(Clone, Copy, Debug, PartialEq, Eq, Structural)]
pub struct Square {
    pub index: u32,
}

impl Square {
    /// Whether this is a square of the board.
    pub open spec fn on_board(self) -> bool {
        self.index < 64
    }

    /// Whether this is "no square".
    pub open spec fn is_none(self) -> bool {
        self.index == 64
    }

    /// "No square".
    pub fn none() -> (r: Self)
        ensures
            r.index == 64,
    {
        Self { index: 64 }
    }

    /// The square `a1`.
    pub fn a1() -> (r: Self)
        ensures
            r.index == 0,
    {
        Self { index: 0 }
    }

    /// The square `c1`.
    pub fn c1() -> (r: Self)
        ensures
            r.index == 2,
    {
        Self { index: 2 }
    }

    /// The square `d1`.
    pub fn d1() -> (r: Self)
        ensures
            r.index == 3,
    {
        Self { index: 3 }
    }

    /// The square `e1`.
    pub fn e1() -> (r: Self)
        ensures
            r.index == 4,
    {
        Self { index: 4 }
    }

    /// The square `f1`.
    pub fn f1() -> (r: Self)
        ensures
            r.index == 5,
    {
        Self { index: 5 }
    }

    /// The square `g1`.
    pub fn g1() -> (r: Self)
        ensures
            r.index == 6,
    {
        Self { index: 6 }
    }

    /// The square `h1`.
    pub fn h1() -> (r: Self)
        ensures
            r.index == 7,
    {
        Self { index: 7 }
    }

    /// The square `a8`.
    pub fn a8() -> (r: Self)
        ensures
            r.index == 56,
    {
        Self { index: 56 }
    }

    /// The square `c8`.
    pub fn c8() -> (r: Self)
        ensures
            r.index == 58,
    {
        Self { index: 58 }
    }

    /// The square `d8`.
    pub fn d8() -> (r: Self)
        ensures
            r.index == 59,
    {
        Self { index: 59 }
    }

    /// The square `e8`.
    pub fn e8() -> (r: Self)
        ensures
            r.index == 60,
    {
        Self { index: 60 }
    }

    /// The square `f8`.
    pub fn f8() -> (r: Self)
        ensures
            r.index == 61,
    {
        Self { index: 61 }
    }

    /// The square `g8`.
    pub fn g8() -> (r: Self)
        ensures
            r.index == 62,
    {
        Self { index: 62 }
    }

    /// The square `h8`.
    pub fn h8() -> (r: Self)
        ensures
            r.index == 63,
    {
        Self { index: 63 }
    }

    /// The square with the given index, which must be one of the board.
    pub fn new(index: u32) -> (r: Self)
        requires
            index < 64,
        ensures
            r.index == index,
    {
        Self { index }
    }

    /// The square's index.
    pub fn index(&self) -> (r: u32)
        ensures
            r == self.index,
    {
        self.index
    }

    /// The square's index.
    pub fn to_u32(&self) -> (r: u32)
        ensures
            r == self.index,
    {
        self.index
    }

    /// The square with the given index, whatever it is.
    pub fn from_u32(index: u32) -> (r: Self)
        ensures
            r.index == index,
    {
        Self { index }
    }

    /// The square's index as a signed number.
    pub fn to_i32(&self) -> (r: i32)
        ensures
            r == self.index as i32,
            self.index <= 0x7FFF_FFFF ==> r == self.index,
    {
        self.index as i32
    }

    /// The square's file.
    pub fn file(&self) -> (r: File)
        ensures
            r.index == self.index % 8,
    {
        File::new(self.index % 8)
    }

    /// The square's rank.
    pub fn rank(&self) -> (r: Rank)
        ensures
            r.index == self.index / 8,
    {
        Rank::new(self.index / 8)
    }

    /// The square `files` files to the right and `ranks` ranks up, if its
    /// index is one of the board.
    pub fn offset(&self, files: i32, ranks: i32) -> (r: Option<Self>)
        ensures
            r == Square::offset_spec(self.index as int, files as int, ranks as int),
    {
        let new_index: i64 = self.index as i64 + files as i64 + (ranks as i64) * 8;
        if new_index >= 0 && new_index < 64 {
            Some(Self { index: new_index as u32 })
        } else {
            None
        }
    }

    /// What `offset` returns.
    pub open spec fn offset_spec(index: int, files: int, ranks: int) -> Option<Square> {
        let n = index + files + ranks * 8;
        if 0 <= n < 64 {
            Some(Square { index: n as u32 })
        } else {
            None
        }
    }

    /// Whether rank `r` and file `f` name a square of the board.
    pub fn is_valid(r: i64, f: i64) -> (ok: bool)
        ensures
            ok == (0 <= r < 8 && 0 <= f < 8),
    {
        r >= 0 && r < 8 && f >= 0 && f < 8
    }

    /// The square on rank `r` and file `f`, or "no square" if there is none.
    pub fn from_rank_file(r: i64, f: i64) -> (sq: Self)
        ensures
            0 <= r < 8 && 0 <= f < 8 ==> sq.index == r * 8 + f,
            !(0 <= r < 8 && 0 <= f < 8) ==> sq.is_none(),
    {
        if Self::is_valid(r, f) {
            Self { index: (r * 8 + f) as u32 }
        } else {
            Square::none()
        }
    }

    /// The square's name: the file's letter, then the rank's digit.
    pub fn to_string(&self) -> (s: String)
        requires
            self.on_board(),
        ensures
            s@ == seq![file_char(self.index as int % 8), digit_char(self.index as int / 8 + 1)],
    {
        let mut s = String::new();
        s.push(self.file().letter());
        s.push(digit((self.index / 8 + 1) as u8));
        s
    }

    /// The square whose index is the sum of the two indices, cut to 32
    /// bits.
    pub fn plus(self, rhs: Square) -> (r: Square)
        ensures
            r.index == (self.index + rhs.index) as u32,
            self.index + rhs.index <= u32::MAX ==> r.index == self.index + rhs.index,
    {
        let new_index: i64 = self.index as i64 + rhs.index as i64;
        Self { index: new_index as u32 }
    }

    /// The square whose index is the difference of the two indices, cut to
    /// 32 bits.
    pub fn minus(self, rhs: Square) -> (r: Square)
        ensures
            r.index == (self.index - rhs.index) as u32,
            self.index >= rhs.index ==> r.index == self.index - rhs.index,
    {
        let new_index: i64 = self.index as i64 - rhs.index as i64;
        Self { index: new_index as u32 }
    }

    /// The square at the given distance from this one: the index that is
    /// the sum of this square's index and the distance, cut to 32 bits.
    pub fn shifted(self, rhs: FlatSquareOffset) -> (r: Square)
        ensures
            r.index == (self.index + rhs.value) as u32,
            0 <= self.index + rhs.value <= u32::MAX ==> r.index == self.index + rhs.value,
    {
        let new_index: i64 = self.index as i64 + rhs.value as i64;
        Self { index: new_index as u32 }
    }
}

impl core::ops::Add<FlatSquareOffset> for Square {
    type Output = Square;

    fn add(self, rhs: FlatSquareOffset) -> (r: Square) {
        self.shifted(rhs)
    }
}

impl vstd::std_specs::ops::AddSpecImpl<FlatSquareOffset> for Square {
    open spec fn obeys_add_spec() -> bool {
        true
    }

    open spec fn add_req(self, rhs: FlatSquareOffset) -> bool {
        true
    }

    open spec fn add_spec(self, rhs: FlatSquareOffset) -> Square {
        Square { index: (self.index + rhs.value) as u32 }
    }
}

impl core::ops::Add<Square> for Square {
    type Output = Square;

    fn add(self, rhs: Square) -> (r: Square) {
        self.plus(rhs)
    }
}

impl vstd::std_specs::ops::AddSpecImpl<Square> for Square {
    open spec fn obeys_add_spec() -> bool {
        true
    }

    open spec fn add_req(self, rhs: Square) -> bool {
        true
    }

    open spec fn add_spec(self, rhs: Square) -> Square {
        Square { index: (self.index + rhs.index) as u32 }
    }
}

impl core::ops::Sub<Square> for Square {
    type Output = Square;

    fn sub(self, rhs: Square) -> (r: Square) {
        self.minus(rhs)
    }
}

impl vstd::std_specs::ops::SubSpecImpl<Square> for Square {
    open spec fn obeys_sub_spec() -> bool {
        true
    }

    open spec fn sub_req(self, rhs: Square) -> bool {
        true
    }

    open spec fn sub_spec(self, rhs: Square) -> Square {
        Square { index: (self.index - rhs.index) as u32 }
    }
}

impl core::ops::Neg for FlatSquareOffset {
    type Output = FlatSquareOffset;

    fn neg(self) -> (r: FlatSquareOffset) {
        FlatSquareOffset { value: -self.value }
    }
}

impl vstd::std_specs::ops::NegSpecImpl for FlatSquareOffset {
    open spec fn obeys_neg_spec() -> bool {
        true
    }

    open spec fn neg_req(self) -> bool {
        self.value > -128
    }

    open spec fn neg_spec(self) -> FlatSquareOffset {
        FlatSquareOffset { value: (-self.value) as i8 }
    }
}

} // verus!
