//! Inspecting and changing permissions.

use vstd::prelude::*;

use crate::text::{decimal, decimal_text, push_char};

verus! {

/// What the filesystem says of an entry and its owner. A user or a group that
/// is not known has no name.
pub struct PermsStat {
    pub is_dir: bool,
    pub uid: u32,
    pub gid: u32,
    pub owner: Option<String>,
    pub group: Option<String>,
    pub mode: u32,
}

/// The permissions that are being looked at.
pub struct PermsState {
    pub path: String,
    pub is_dir: bool,
    pub uid: u32,
    pub gid: u32,
    pub owner_name: String,
    pub group_name: String,
    /// Three times read, write and execute, and the special bits.
    pub mode: u32,
    /// The cell of the grid that is selected: nine permissions, three special
    /// bits, three buttons, three in a row.
    pub cursor: usize,
    /// Whether applying to everything below has to be confirmed.
    pub confirm_recursive: bool,
    /// Zero for yes, one for no.
    pub confirm_cursor: u8,
}

/// The mathematical form of a [`PermsState`].
#[verifier::ext_equal]
pub struct PermsView {
    pub path: Seq<char>,
    pub is_dir: bool,
    pub uid: u32,
    pub gid: u32,
    pub owner_name: Seq<char>,
    pub group_name: Seq<char>,
    pub mode: u32,
    pub cursor: nat,
    pub confirm_recursive: bool,
    pub confirm_cursor: u8,
}

impl View for PermsState {
    type V = PermsView;

    open spec fn view(&self) -> PermsView {
        PermsView {
            path: self.path@,
            is_dir: self.is_dir,
            uid: self.uid,
            gid: self.gid,
            owner_name: self.owner_name@,
            group_name: self.group_name@,
            mode: self.mode,
            cursor: self.cursor as nat,
            confirm_recursive: self.confirm_recursive,
            confirm_cursor: self.confirm_cursor,
        }
    }
}

/// The name of a user or a group, or the number where it has none.
pub open spec fn name_or_number(name: Option<String>, id: u32) -> Seq<char> {
    match name {
        Some(n) => n@,
        None => decimal_text(id as nat),
    }
}

/// The permission bit of a cell; none for a button.
pub open spec fn cell_bit(cell: nat) -> u32 {
    if cell == 0 {
        0o400
    } else if cell == 1 {
        0o200
    } else if cell == 2 {
        0o100
    } else if cell == 3 {
        0o040
    } else if cell == 4 {
        0o020
    } else if cell == 5 {
        0o010
    } else if cell == 6 {
        0o004
    } else if cell == 7 {
        0o002
    } else if cell == 8 {
        0o001
    } else if cell == 9 {
        0o4000
    } else if cell == 10 {
        0o2000
    } else if cell == 11 {
        0o1000
    } else {
        0
    }
}

/// `v`, but not less than `lo` or more than `hi`.
pub open spec fn clamped(v: int, lo: int, hi: int) -> int {
    if v < lo {
        lo
    } else if v > hi {
        hi
    } else {
        v
    }
}

impl PermsView {
    /// The cursor lies in the grid.
    pub open spec fn wf(self) -> bool {
        self.cursor < PermsState::CELLS
    }

    /// With the permission under the cursor switched over.
    pub open spec fn toggled(self) -> PermsView {
        if self.cursor < 12 {
            PermsView { mode: self.mode ^ cell_bit(self.cursor), ..self }
        } else {
            self
        }
    }

    /// With the cursor moved in the grid, not beyond its edges.
    pub open spec fn moved(self, dx: int, dy: int) -> PermsView {
        PermsView {
            cursor: (clamped(self.cursor / 3 + dy, 0, 4) * 3 + clamped(
                self.cursor % 3 + dx,
                0,
                2,
            )) as nat,
            ..self
        }
    }
}

/// The permissions of an entry, with the cursor on the first button.
pub open spec fn inspected(path: Seq<char>, st: PermsStat) -> PermsView {
    PermsView {
        path,
        is_dir: st.is_dir,
        uid: st.uid,
        gid: st.gid,
        owner_name: name_or_number(st.owner, st.uid),
        group_name: name_or_number(st.group, st.gid),
        mode: st.mode & 0o7777,
        cursor: 12,
        confirm_recursive: false,
        confirm_cursor: 1,
    }
}

pub(crate) fn bit_of_cell(cell: usize) -> (r: u32)
    ensures
        r == cell_bit(cell as nat),
{
    if cell == 0 {
        0o400
    } else if cell == 1 {
        0o200
    } else if cell == 2 {
        0o100
    } else if cell == 3 {
        0o040
    } else if cell == 4 {
        0o020
    } else if cell == 5 {
        0o010
    } else if cell == 6 {
        0o004
    } else if cell == 7 {
        0o002
    } else if cell == 8 {
        0o001
    } else if cell == 9 {
        0o4000
    } else if cell == 10 {
        0o2000
    } else if cell == 11 {
        0o1000
    } else {
        0
    }
}

impl PermsState {
    /// The number of cells of the grid.
    pub const CELLS: usize = 15;

    /// The permissions of an entry from what the filesystem says of it.
    pub fn from_path(path: String, stat: Result<PermsStat, String>) -> (r: Result<
        PermsState,
        String,
    >)
        ensures
            match stat {
                Ok(st) => r is Ok && r->Ok_0@ == inspected(path@, st) && r->Ok_0@.wf(),
                Err(why) => r is Err && r->Err_0@ == "stat "@ + path@ + ": "@ + why@,
            },
    {
        match stat {
            Ok(st) => {
                let owner_name = match st.owner {
                    Some(n) => n,
                    None => decimal(st.uid as u64),
                };
                let group_name = match st.group {
                    Some(n) => n,
                    None => decimal(st.gid as u64),
                };
                Ok(
                    PermsState {
                        path,
                        is_dir: st.is_dir,
                        uid: st.uid,
                        gid: st.gid,
                        owner_name,
                        group_name,
                        mode: st.mode & 0o7777,
                        cursor: 12,
                        confirm_recursive: false,
                        confirm_cursor: 1,
                    },
                )
            },
            Err(why) => {
                let mut s = "stat ".to_owned();
                s.append(&path);
                s.append(": ");
                s.append(&why);
                Err(s)
            },
        }
    }

    /// Switches over the permission under the cursor. A button has none.
    pub fn toggle_cursor(&mut self)
        ensures
            final(self)@ == old(self)@.toggled(),
    {
        if self.cursor < 12 {
            let bit = bit_of_cell(self.cursor);
            self.mode = self.mode ^ bit;
        }
        assert(self@ =~= old(self)@.toggled());
    }

    /// Moves the cursor in the grid.
    pub fn move_cursor(&mut self, dx: i32, dy: i32)
        requires
            old(self)@.wf(),
            dx <= i32::MAX - 2,
            dy <= i32::MAX - 4,
        ensures
            final(self)@ == old(self)@.moved(dx as int, dy as int),
            final(self)@.wf(),
    {
        let row: i32 = (self.cursor / 3) as i32 + dy;
        let col: i32 = (self.cursor % 3) as i32 + dx;
        let new_row: i32 = if row < 0 {
            0
        } else if row > 4 {
            4
        } else {
            row
        };
        let new_col: i32 = if col < 0 {
            0
        } else if col > 2 {
            2
        } else {
            col
        };
        self.cursor = (new_row * 3 + new_col) as usize;
        assert(self@ =~= old(self)@.moved(dx as int, dy as int));
    }

    /// Whether the permissions can be applied to everything below: the entry
    /// has to exist.
    pub fn clone_apply_target(&self, exists: bool) -> (r: Result<(), String>)
        ensures
            r is Ok <==> exists,
            r is Err ==> r->Err_0@ == "path no longer exists: "@ + self@.path,
    {
        if !exists {
            let mut s = "path no longer exists: ".to_owned();
            s.append(&self.path);
            return Err(s);
        }
        Ok(())
    }
}

/// Whether a user may change permissions here.
pub fn is_root(uid: u32) -> (r: bool)
    ensures
        r == (uid == 0),
{
    uid == 0
}

/// Switching a permission over twice leaves it as it was, and switching it over
/// changes no other.
pub proof fn toggling_twice_changes_nothing(p: PermsView, other: nat)
    requires
        other != p.cursor,
        other < 12,
        p.cursor < 12,
    ensures
        p.toggled().toggled() == p,
        p.toggled().mode & cell_bit(p.cursor) != p.mode & cell_bit(p.cursor),
        p.toggled().mode & cell_bit(other) == p.mode & cell_bit(other),
{
    let m = p.mode;
    let b = cell_bit(p.cursor);
    let c = cell_bit(other);
    assert((m ^ b) ^ b == m) by (bit_vector);
    assert(b != 0 ==> (m ^ b) & b != m & b) by (bit_vector);
    assert(b & c == 0 ==> (m ^ b) & c == m & c) by (bit_vector);
    assert(b & c == 0) by {
        lemma_bits_apart(p.cursor, other);
    }
}

proof fn lemma_bits_apart(i: nat, j: nat)
    requires
        i < 12,
        j < 12,
        i != j,
    ensures
        cell_bit(i) & cell_bit(j) == 0,
{
    let b = cell_bit(i);
    let c = cell_bit(j);
    assert(b & c == 0) by (bit_vector)
        requires
            b != c,
            b == 256 || b == 128 || b == 64 || b == 32 || b == 16 || b == 8 || b == 4 || b == 2
                || b == 1 || b == 2048 || b == 1024 || b == 512,
            c == 256 || c == 128 || c == 64 || c == 32 || c == 16 || c == 8 || c == 4 || c == 2
                || c == 1 || c == 2048 || c == 1024 || c == 512,
    ;
}

/// The cursor never leaves the grid.
pub proof fn moving_stays_in_grid(p: PermsView, dx: int, dy: int)
    ensures
        p.moved(dx, dy).wf(),
{
}

/// Three permissions as letters. The special bit shows in place of execute, as
/// a small letter where execute is on too.
pub open spec fn triplet_text(
    read: bool,
    write: bool,
    execute: bool,
    special: bool,
    both: char,
    alone: char,
) -> Seq<char> {
    seq![
        if read {
            'r'
        } else {
            '-'
        },
        if write {
            'w'
        } else {
            '-'
        },
        if special {
            if execute {
                both
            } else {
                alone
            }
        } else if execute {
            'x'
        } else {
            '-'
        },
    ]
}

/// Whether a permission is on.
pub open spec fn bit_on(mode: u32, bit: u32) -> bool {
    mode & bit != 0
}

/// Permissions as a listing shows them.
pub open spec fn mode_text(mode: u32, is_dir: bool) -> Seq<char> {
    seq![
        if is_dir {
            'd'
        } else {
            '-'
        },
    ] + triplet_text(
        bit_on(mode, 0o400),
        bit_on(mode, 0o200),
        bit_on(mode, 0o100),
        bit_on(mode, 0o4000),
        's',
        'S',
    ) + triplet_text(
        bit_on(mode, 0o040),
        bit_on(mode, 0o020),
        bit_on(mode, 0o010),
        bit_on(mode, 0o2000),
        's',
        'S',
    ) + triplet_text(
        bit_on(mode, 0o004),
        bit_on(mode, 0o002),
        bit_on(mode, 0o001),
        bit_on(mode, 0o1000),
        't',
        'T',
    )
}

fn push_triplet(
    s: &mut String,
    read: bool,
    write: bool,
    execute: bool,
    special: bool,
    both: char,
    alone: char,
)
    ensures
        final(s)@ == old(s)@ + triplet_text(read, write, execute, special, both, alone),
{
    let ghost before = s@;
    push_char(
        s,
        if read {
            'r'
        } else {
            '-'
        },
    );
    push_char(
        s,
        if write {
            'w'
        } else {
            '-'
        },
    );
    push_char(
        s,
        if special {
            if execute {
                both
            } else {
                alone
            }
        } else if execute {
            'x'
        } else {
            '-'
        },
    );
    assert(s@ =~= before + triplet_text(read, write, execute, special, both, alone));
}

/// Permissions as a listing shows them.
pub fn mode_string(mode: u32, is_dir: bool) -> (r: String)
    ensures
        r@ == mode_text(mode, is_dir),
{
    let mut s = String::new();
    push_char(
        &mut s,
        if is_dir {
            'd'
        } else {
            '-'
        },
    );
    assert(s@ =~= seq![
        if is_dir {
            'd'
        } else {
            '-'
        },
    ]);
    push_triplet(
        &mut s,
        mode & 0o400 != 0,
        mode & 0o200 != 0,
        mode & 0o100 != 0,
        mode & 0o4000 != 0,
        's',
        'S',
    );
    push_triplet(
        &mut s,
        mode & 0o040 != 0,
        mode & 0o020 != 0,
        mode & 0o010 != 0,
        mode & 0o2000 != 0,
        's',
        'S',
    );
    push_triplet(
        &mut s,
        mode & 0o004 != 0,
        mode & 0o002 != 0,
        mode & 0o001 != 0,
        mode & 0o1000 != 0,
        't',
        'T',
    );
    s
}

} // verus!
