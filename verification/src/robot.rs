//! A robot that walks a rectangular area of walls, open cells, numbered
//! checkpoints and a goal. Checkpoints are captured in increasing order;
//! the goal counts only once every checkpoint has been captured.
use vstd::prelude::*;

verus! {

/// What a cell of the area holds.
#[derive(Clone, Copy, Debug, PartialEq, Eq, Structural)]
pub enum AreaCell {
    Wall,
    Goal,
    Space,
    Checkpoint(u8),
}

/// A compass direction.
#[derive(Clone, Copy, Debug, PartialEq, Eq, Structural)]
pub enum AreaDirection {
    North,
    East,
    South,
    West,
}

/// A direction relative to the way the robot faces.
#[derive(Clone, Copy, Debug, PartialEq, Eq, Structural)]
pub enum RelativeDirection {
    Forward,
    Left,
    Right,
    Backward,
}

/// The number of a compass direction, clockwise from north.
pub open spec fn dir_ord(d: AreaDirection) -> int {
    match d {
        AreaDirection::North => 0,
        AreaDirection::East => 1,
        AreaDirection::South => 2,
        AreaDirection::West => 3,
    }
}

/// The compass direction of any whole number, counted modulo four.
pub open spec fn dir_of(v: int) -> AreaDirection {
    let m = v % 4;
    if m == 0 {
        AreaDirection::North
    } else if m == 1 {
        AreaDirection::East
    } else if m == 2 {
        AreaDirection::South
    } else {
        AreaDirection::West
    }
}

/// How many quarter turns clockwise a relative direction is.
pub open spec fn rel_ord(d: RelativeDirection) -> int {
    match d {
        RelativeDirection::Forward => 0,
        RelativeDirection::Left => -1,
        RelativeDirection::Right => 1,
        RelativeDirection::Backward => 2,
    }
}

/// The direction a quarter turn anticlockwise from `d`.
pub open spec fn turned_left(d: AreaDirection) -> AreaDirection {
    dir_of(dir_ord(d) - 1)
}

/// The direction a quarter turn clockwise from `d`.
pub open spec fn turned_right(d: AreaDirection) -> AreaDirection {
    dir_of(dir_ord(d) + 1)
}

impl AreaDirection {
    /// The number of this direction, clockwise from north.
    pub fn ord(self) -> (r: i8)
        ensures
            r == dir_ord(self),
    {
        match self {
            AreaDirection::North => 0,
            AreaDirection::East => 1,
            AreaDirection::South => 2,
            AreaDirection::West => 3,
        }
    }
}

impl From<i8> for AreaDirection {
    /// The direction of `value` counted modulo four, so that negative
    /// numbers wrap around.
    fn from(value: i8) -> Self {
        match value.checked_rem_euclid(4) {
            Some(0) => AreaDirection::North,
            Some(1) => AreaDirection::East,
            Some(2) => AreaDirection::South,
            _ => AreaDirection::West,
        }
    }
}

impl vstd::std_specs::convert::FromSpecImpl<i8> for AreaDirection {
    open spec fn obeys_from_spec() -> bool {
        true
    }

    open spec fn from_spec(v: i8) -> AreaDirection {
        dir_of(v as int)
    }
}

impl RelativeDirection {
    /// How many quarter turns clockwise this direction is.
    pub fn offset(self) -> (r: i8)
        ensures
            r == rel_ord(self),
    {
        match self {
            RelativeDirection::Forward => 0,
            RelativeDirection::Left => -1,
            RelativeDirection::Right => 1,
            RelativeDirection::Backward => 2,
        }
    }

    /// Reads a relative direction from its name, in any letter case:
    /// `LEFT`, `RIGHT`, `FORWARD` or `BACKWARD`.
    pub fn parse(s: &str) -> (r: Result<RelativeDirection, ()>)
        ensures
            r == relative_direction_named(upper_ascii(s@)),
    {
        let n = s.unicode_len();
        let mut upper: Vec<char> = Vec::new();
        let mut i: usize = 0;
        while i < n
            invariant
                n == s@.len(),
                i <= n,
                upper@ == upper_ascii(s@.take(i as int)),
            decreases n - i,
        {
            let c = s.get_char(i);
            upper.push(upper_char_exec(c));
            proof {
                assert(s@.take(i + 1).drop_last() =~= s@.take(i as int));
            }
            i = i + 1;
        }
        proof {
            assert(s@.take(n as int) =~= s@);
        }
        if chars_are(&upper, "LEFT") {
            Ok(RelativeDirection::Left)
        } else if chars_are(&upper, "RIGHT") {
            Ok(RelativeDirection::Right)
        } else if chars_are(&upper, "FORWARD") {
            Ok(RelativeDirection::Forward)
        } else if chars_are(&upper, "BACKWARD") {
            Ok(RelativeDirection::Backward)
        } else {
            Err(())
        }
    }
}

impl core::str::FromStr for RelativeDirection {
    type Err = ();

    fn from_str(s: &str) -> (r: Result<Self, Self::Err>)
        ensures
            r == relative_direction_named(upper_ascii(s@)),
    {
        RelativeDirection::parse(s)
    }
}

/// A character in upper case if it is an ASCII letter.
pub open spec fn upper_char(c: char) -> char {
    if 'a' <= c && c <= 'z' {
        ((c as u32) - 32) as char
    } else {
        c
    }
}

/// A text with its ASCII letters in upper case.
pub open spec fn upper_ascii(s: Seq<char>) -> Seq<char>
    decreases s.len(),
{
    if s.len() == 0 {
        seq![]
    } else {
        upper_ascii(s.drop_last()).push(upper_char(s.last()))
    }
}

/// The relative direction with a given upper-case name.
pub open spec fn relative_direction_named(w: Seq<char>) -> Result<RelativeDirection, ()> {
    if w == "LEFT"@ {
        Ok(RelativeDirection::Left)
    } else if w == "RIGHT"@ {
        Ok(RelativeDirection::Right)
    } else if w == "FORWARD"@ {
        Ok(RelativeDirection::Forward)
    } else if w == "BACKWARD"@ {
        Ok(RelativeDirection::Backward)
    } else {
        Err(())
    }
}

fn upper_char_exec(c: char) -> (r: char)
    ensures
        r == upper_char(c),
{
    if 'a' <= c && c <= 'z' {
        match c {
            'a' => 'A',
            'b' => 'B',
            'c' => 'C',
            'd' => 'D',
            'e' => 'E',
            'f' => 'F',
            'g' => 'G',
            'h' => 'H',
            'i' => 'I',
            'j' => 'J',
            'k' => 'K',
            'l' => 'L',
            'm' => 'M',
            'n' => 'N',
            'o' => 'O',
            'p' => 'P',
            'q' => 'Q',
            'r' => 'R',
            's' => 'S',
            't' => 'T',
            'u' => 'U',
            'v' => 'V',
            'w' => 'W',
            'x' => 'X',
            'y' => 'Y',
            _ => 'Z',
        }
    } else {
        c
    }
}

/// Whether the characters of `v` spell `w`.
fn chars_are(v: &Vec<char>, w: &str) -> (r: bool)
    ensures
        r == (v@ == w@),
{
    let n = w.unicode_len();
    if v.len() != n {
        return false;
    }
    let mut i: usize = 0;
    while i < n
        invariant
            n == w@.len(),
            v@.len() == n,
            i <= n,
            forall|k: int| 0 <= k < i ==> v@[k] == w@[k],
        decreases n - i,
    {
        if v[i] != w.get_char(i) {
            return false;
        }
        i = i + 1;
    }
    proof {
        assert(v@ =~= w@);
    }
    true
}


/// The mathematical content of a [`Robot`]: the cells by row, the size of
/// the area, where the robot stands, the way it faces and its checkpoint
/// power (the number of the next checkpoint it may capture).
pub struct RobotView {
    pub area: Seq<Seq<AreaCell>>,
    pub width: int,
    pub height: int,
    pub x: int,
    pub y: int,
    pub direction: AreaDirection,
    pub power: int,
}

/// Whether `(x, y)` is a cell of the area.
pub open spec fn in_area(area: Seq<Seq<AreaCell>>, x: int, y: int) -> bool {
    0 <= y < area.len() && 0 <= x < area[y].len()
}

/// What holds of every robot: a rectangular area, the robot on a cell of it
/// that is no wall, a power from 1 to 10, and every checkpoint left numbered
/// from the power up to 9.
pub open spec fn robot_wf(v: RobotView) -> bool {
    &&& v.area.len() == v.height
    &&& forall|y: int| 0 <= y < v.height ==> #[trigger] v.area[y].len() == v.width
    &&& 0 <= v.x < v.width
    &&& 0 <= v.y < v.height
    &&& v.area[v.y][v.x] != AreaCell::Wall
    &&& 1 <= v.power <= 10
    &&& forall|y: int, x: int|
        in_area(v.area, x, y) ==> (#[trigger] v.area[y][x] matches AreaCell::Checkpoint(o)
            ==> v.power <= o <= 9)
}

/// The cell one step from `(x, y)` in direction `d`.
pub open spec fn step(x: int, y: int, d: AreaDirection) -> (int, int) {
    match d {
        AreaDirection::North => (x, y - 1),
        AreaDirection::East => (x + 1, y),
        AreaDirection::South => (x, y + 1),
        AreaDirection::West => (x - 1, y),
    }
}

/// The compass direction of `d` for a robot facing `facing`.
pub open spec fn absolute(facing: AreaDirection, d: RelativeDirection) -> AreaDirection {
    dir_of(dir_ord(facing) + rel_ord(d))
}

/// Whether the robot could step in direction `d`: the cell there is in the
/// area and is no wall.
pub open spec fn can_move_to(v: RobotView, d: RelativeDirection) -> bool {
    let (x, y) = step(v.x, v.y, absolute(v.direction, d));
    in_area(v.area, x, y) && v.area[y][x] != AreaCell::Wall
}

/// Whether some checkpoint numbered at most `limit` is left in the area.
pub open spec fn has_checkpoint_upto(area: Seq<Seq<AreaCell>>, limit: int) -> bool {
    exists|y: int, x: int|
        in_area(area, x, y) && (#[trigger] area[y][x] matches AreaCell::Checkpoint(o) && o
            <= limit)
}

/// The area with the cell `(x, y)` made open.
pub open spec fn cleared(area: Seq<Seq<AreaCell>>, x: int, y: int) -> Seq<Seq<AreaCell>> {
    area.update(y, area[y].update(x, AreaCell::Space))
}

/// The robot standing at `(x, y)`.
pub open spec fn placed(v: RobotView, x: int, y: int) -> RobotView {
    RobotView { x, y, ..v }
}

/// What a step forward gives and leaves: `None` and no change where the
/// robot cannot move; otherwise it moves, captures a checkpoint that its
/// power allows (gaining power once no checkpoint up to its power is left),
/// and captures the goal, answering `true`, only when no checkpoint is left.
pub open spec fn moved(v: RobotView) -> (Option<bool>, RobotView) {
    if !can_move_to(v, RelativeDirection::Forward) {
        (None, v)
    } else {
        let (x, y) = step(v.x, v.y, v.direction);
        let w = placed(v, x, y);
        match v.area[y][x] {
            AreaCell::Goal => if has_checkpoint_upto(v.area, 255) {
                (Some(false), w)
            } else {
                (Some(true), RobotView { area: cleared(v.area, x, y), ..w })
            },
            AreaCell::Checkpoint(o) => if v.power >= o {
                let a = cleared(v.area, x, y);
                (
                    Some(false),
                    RobotView {
                        area: a,
                        power: if has_checkpoint_upto(a, v.power) {
                            v.power
                        } else {
                            v.power + 1
                        },
                        ..w
                    },
                )
            } else {
                (Some(false), w)
            },
            _ => (Some(false), w),
        }
    }
}

/// A robot in its area.
pub struct Robot {
    area: Vec<Vec<AreaCell>>,
    area_size: (usize, usize),
    location: (usize, usize),
    direction: AreaDirection,
    checkpoint_power: u8,
}

impl View for Robot {
    type V = RobotView;

    closed spec fn view(&self) -> RobotView {
        RobotView {
            area: self.area@.map_values(|r: Vec<AreaCell>| r@),
            width: self.area_size.0 as int,
            height: self.area_size.1 as int,
            x: self.location.0 as int,
            y: self.location.1 as int,
            direction: self.direction,
            power: self.checkpoint_power as int,
        }
    }
}

/// The rows of an area as sequences.
pub open spec fn rows_view(area: Seq<Vec<AreaCell>>) -> Seq<Seq<AreaCell>> {
    area.map_values(|r: Vec<AreaCell>| r@)
}

/// Makes the cell `(x, y)` of `area` an open one.
fn clear_cell(area: &mut Vec<Vec<AreaCell>>, x: usize, y: usize)
    requires
        y < old(area)@.len(),
        x < old(area)@[y as int]@.len(),
    ensures
        rows_view(final(area)@) == cleared(rows_view(old(area)@), x as int, y as int),
    no_unwind
{
    area[y][x] = AreaCell::Space;
    assert(rows_view(area@) =~= cleared(rows_view(old(area)@), x as int, y as int));
}

impl Robot {
    /// Every robot is well formed.
    #[verifier::type_invariant]
    spec fn inv(self) -> bool {
        robot_wf(self@)
    }

    /// Whether the cell `(x, y)` is in the area and is no wall.
    fn is_open(&self, x: usize, y: usize) -> (r: bool)
        ensures
            r == (in_area(self@.area, x as int, y as int) && self@.area[y as int][x as int]
                != AreaCell::Wall),
    {
        if y < self.area.len() && x < self.area[y].len() {
            self.area[y][x] != AreaCell::Wall
        } else {
            false
        }
    }

    /// Whether the robot could step in `direction`, relative to the way it
    /// faces, without leaving the area or walking into a wall.
    pub fn can_move(&self, direction: RelativeDirection) -> (r: bool)
        ensures
            robot_wf(self@),
            r == can_move_to(self@, direction),
    {
        proof {
            use_type_invariant(self);
        }
        let check_direction = AreaDirection::from(self.direction.ord() + direction.offset());
        let (x, y) = self.location;
        match check_direction {
            AreaDirection::North => if y == 0 {
                false
            } else {
                self.is_open(x, y - 1)
            },
            AreaDirection::East => self.is_open(x + 1, y),
            AreaDirection::South => self.is_open(x, y + 1),
            AreaDirection::West => if x == 0 {
                false
            } else {
                self.is_open(x - 1, y)
            },
        }
    }

    /// Whether a checkpoint numbered at most `limit` is left.
    fn has_checkpoint(&self, limit: u8) -> (r: bool)
        ensures
            r == has_checkpoint_upto(self@.area, limit as int),
    {
        let mut y: usize = 0;
        while y < self.area.len()
            invariant
                y <= self.area@.len(),
                forall|yy: int, x: int|
                    0 <= yy < y && in_area(self@.area, x, yy) ==> !(#[trigger] self@.area[yy][x] matches AreaCell::Checkpoint(o)
                        && o <= limit),
            decreases self.area@.len() - y,
        {
            let mut x: usize = 0;
            while x < self.area[y].len()
                invariant
                    y < self.area@.len(),
                    x <= self.area@[y as int]@.len(),
                    forall|xx: int|
                        0 <= xx < x ==> !(#[trigger] self@.area[y as int][xx] matches AreaCell::Checkpoint(o)
                            && o <= limit),
                decreases self.area@[y as int]@.len() - x,
            {
                if let AreaCell::Checkpoint(o) = self.area[y][x] {
                    if o <= limit {
                        assert(in_area(self@.area, x as int, y as int));
                        return true;
                    }
                }
                x = x + 1;
            }
            y = y + 1;
        }
        false
    }

    /// Steps forward if the robot can. Returns `None` when it cannot, and
    /// otherwise whether it has reached the goal with every checkpoint
    /// captured; a checkpoint is captured when the robot's power allows it.
    pub fn move_forward(&mut self) -> (r: Option<bool>)
        ensures
            robot_wf(old(self)@),
            (r, final(self)@) == moved(old(self)@),
            robot_wf(final(self)@),
    {
        proof {
            use_type_invariant(&*self);
        }
        if self.can_move(RelativeDirection::Forward) {
            let ghost v = self@;
            proof {
                assert(absolute(v.direction, RelativeDirection::Forward) == v.direction);
            }
            let (x, y) = match self.direction {
                AreaDirection::North => (self.location.0, self.location.1 - 1),
                AreaDirection::East => (self.location.0 + 1, self.location.1),
                AreaDirection::South => (self.location.0, self.location.1 + 1),
                AreaDirection::West => (self.location.0 - 1, self.location.1),
            };
            self.location = (x, y);
            let move_cell = self.area[y][x];
            match move_cell {
                AreaCell::Goal => {
                    let checkpoint_exists = self.has_checkpoint(255);
                    if !checkpoint_exists {
                        clear_cell(&mut self.area, x, y);
                        Some(true)
                    } else {
                        Some(false)
                    }
                },
                AreaCell::Checkpoint(order) => {
                    if self.checkpoint_power >= order {
                        clear_cell(&mut self.area, x, y);
                        if !self.has_checkpoint(self.checkpoint_power) {
                            self.checkpoint_power = self.checkpoint_power + 1;
                        }
                    }
                    Some(false)
                },
                _ => Some(false),
            }
        } else {
            None
        }
    }

    /// Turns a quarter turn anticlockwise.
    pub fn rotate_left(&mut self)
        ensures
            robot_wf(old(self)@),
            final(self)@ == (RobotView { direction: turned_left(old(self)@.direction), ..old(self)@ }),
            robot_wf(final(self)@),
    {
        proof {
            use_type_invariant(&*self);
        }
        self.direction = AreaDirection::from(self.direction.ord() - 1);
    }

    /// Turns a quarter turn clockwise.
    pub fn rotate_right(&mut self)
        ensures
            robot_wf(old(self)@),
            final(self)@ == (RobotView { direction: turned_right(old(self)@.direction), ..old(self)@ }),
            robot_wf(final(self)@),
    {
        proof {
            use_type_invariant(&*self);
        }
        self.direction = AreaDirection::from(self.direction.ord() + 1);
    }
}


// ---------------------------------------------------------------------------
// Reading an area from text
// ---------------------------------------------------------------------------
/// The lines of `s`, read from `start` with the current line begun at
/// `i`: lines end at `\n`, a `\r` just before the `\n` is dropped, and an
/// empty last line is no line.
pub open spec fn lines_from(s: Seq<char>, start: int, i: int, acc: Seq<Seq<char>>) -> Seq<
    Seq<char>,
>
    decreases s.len() - i,
{
    if i < 0 || i >= s.len() {
        if 0 <= start < s.len() {
            acc.push(s.subrange(start, s.len() as int))
        } else {
            acc
        }
    } else if s[i] == '\n' {
        let line = s.subrange(start, i);
        let line = if line.len() > 0 && line.last() == '\r' {
            line.drop_last()
        } else {
            line
        };
        lines_from(s, i + 1, i + 1, acc.push(line))
    } else {
        lines_from(s, start, i + 1, acc)
    }
}

/// The lines of a text.
pub open spec fn text_lines(s: Seq<char>) -> Seq<Seq<char>> {
    lines_from(s, 0, 0, seq![])
}

/// The length of the longest line.
pub open spec fn max_len(ls: Seq<Seq<char>>) -> nat
    decreases ls.len(),
{
    if ls.len() == 0 {
        0
    } else {
        let m = max_len(ls.drop_last());
        if ls.last().len() > m {
            ls.last().len()
        } else {
            m
        }
    }
}

/// The direction a robot letter marks.
pub open spec fn robot_mark(c: char) -> Option<AreaDirection> {
    if c == 'n' || c == 'N' {
        Some(AreaDirection::North)
    } else if c == 's' || c == 'S' {
        Some(AreaDirection::South)
    } else if c == 'e' || c == 'E' {
        Some(AreaDirection::East)
    } else if c == 'w' || c == 'W' {
        Some(AreaDirection::West)
    } else {
        None
    }
}

/// The cell a character stands for; a robot letter stands for an open
/// cell, and a character with no meaning for nothing.
pub open spec fn cell_of(c: char) -> Option<AreaCell> {
    if c == '#' || c == '@' {
        Some(AreaCell::Wall)
    } else if c == '.' || c == ',' || c == ' ' {
        Some(AreaCell::Space)
    } else if c == 'x' || c == 'X' {
        Some(AreaCell::Goal)
    } else if robot_mark(c) is Some {
        Some(AreaCell::Space)
    } else if '1' <= c && c <= '9' {
        Some(AreaCell::Checkpoint(((c as u32) - ('0' as u32)) as u8))
    } else {
        None
    }
}

/// Whether every character of the lines means something.
pub open spec fn valid_lines(ls: Seq<Seq<char>>) -> bool {
    forall|y: int, x: int| 0 <= y < ls.len() && 0 <= x < ls[y].len() ==> (#[trigger] cell_of(ls[y][x])) is Some
}

/// Whether a robot letter stands at `(x, y)`.
pub open spec fn robot_at(ls: Seq<Seq<char>>, x: int, y: int) -> bool {
    0 <= y < ls.len() && 0 <= x < ls[y].len() && robot_mark(ls[y][x]) is Some
}

/// Whether the only robot letter stands at `(x, y)`.
pub open spec fn sole_robot(ls: Seq<Seq<char>>, x: int, y: int) -> bool {
    robot_at(ls, x, y) && forall|x2: int, y2: int| #[trigger] robot_at(ls, x2, y2) ==> x2 == x && y2 == y
}

/// The cells of the lines, each line padded with open cells to `width`.
pub open spec fn area_of(ls: Seq<Seq<char>>, width: int) -> Seq<Seq<AreaCell>> {
    Seq::new(
        ls.len(),
        |y: int|
            Seq::new(
                width as nat,
                |x: int|
                    if x < ls[y].len() {
                        cell_of(ls[y][x])->0
                    } else {
                        AreaCell::Space
                    },
            ),
    )
}

/// A text describes a robot when every character means something and it
/// holds exactly one robot letter.
pub open spec fn describes_robot(s: Seq<char>) -> bool {
    let ls = text_lines(s);
    valid_lines(ls) && exists|x: int, y: int| sole_robot(ls, x, y)
}

/// The robot a text describes, standing where its letter is.
pub open spec fn robot_of(s: Seq<char>, v: RobotView) -> bool {
    let ls = text_lines(s);
    &&& sole_robot(ls, v.x, v.y)
    &&& v.area == area_of(ls, max_len(ls) as int)
    &&& v.width == max_len(ls)
    &&& v.height == ls.len()
    &&& v.direction == robot_mark(ls[v.y][v.x])->0
    &&& v.power == 1
}


/// The views of a sequence of lines.
pub open spec fn lines_view(v: Seq<Vec<char>>) -> Seq<Seq<char>> {
    Seq::new(v.len(), |k: int| v[k]@)
}

/// No line is longer than the longest.
pub proof fn lemma_max_len(ls: Seq<Seq<char>>, y: int)
    requires
        0 <= y < ls.len(),
    ensures
        ls[y].len() <= max_len(ls),
    decreases ls.len(),
{
    if y < ls.len() - 1 {
        lemma_max_len(ls.drop_last(), y);
    }
}

/// The lines of the characters `s`, as [`text_lines`] describes them.
fn split_lines(s: &Vec<char>) -> (r: Vec<Vec<char>>)
    ensures
        lines_view(r@) == text_lines(s@),
{
    let mut lines: Vec<Vec<char>> = Vec::new();
    let mut line: Vec<char> = Vec::new();
    let mut i: usize = 0;
    let ghost mut start: int = 0;
    proof {
        assert(lines_view(lines@) =~= Seq::<Seq<char>>::empty());
        assert(line@ =~= s@.subrange(0, 0));
    }
    while i < s.len()
        invariant
            0 <= start <= i <= s@.len(),
            line@ == s@.subrange(start, i as int),
            lines_from(s@, start, i as int, lines_view(lines@)) == text_lines(s@),
        decreases s@.len() - i,
    {
        let ghost before = lines_view(lines@);
        if s[i] == '\n' {
            let n = line.len();
            if n > 0 && line[n - 1] == '\r' {
                line.pop();
                proof {
                    assert(line@ =~= s@.subrange(start, i as int).drop_last());
                }
            }
            lines.push(line);
            line = Vec::new();
            proof {
                assert(lines_view(lines@) =~= before.push(lines@.last()@));
                start = i + 1;
                assert(line@ =~= s@.subrange(start, i + 1));
            }
        } else {
            line.push(s[i]);
            proof {
                assert(line@ =~= s@.subrange(start, i + 1));
            }
        }
        i = i + 1;
    }
    if line.len() > 0 {
        let ghost before = lines_view(lines@);
        lines.push(line);
        proof {
            assert(lines_view(lines@) =~= before.push(s@.subrange(start, s@.len() as int)));
        }
    }
    lines
}

/// The length of the longest of `lines`.
fn max_width(lines: &Vec<Vec<char>>) -> (w: usize)
    ensures
        w == max_len(lines_view(lines@)),
{
    let ghost ls = lines_view(lines@);
    let mut w: usize = 0;
    let mut k: usize = 0;
    proof {
        assert(ls.take(0) =~= Seq::<Seq<char>>::empty());
    }
    while k < lines.len()
        invariant
            ls == lines_view(lines@),
            k <= lines@.len(),
            w == max_len(ls.take(k as int)),
        decreases lines@.len() - k,
    {
        proof {
            assert(ls.take(k + 1).drop_last() =~= ls.take(k as int));
        }
        if lines[k].len() > w {
            w = lines[k].len();
        }
        k = k + 1;
    }
    proof {
        assert(ls.take(k as int) =~= ls);
    }
    w
}

/// The direction a robot letter marks.
fn robot_mark_exec(c: char) -> (r: Option<AreaDirection>)
    ensures
        r == robot_mark(c),
{
    match c {
        'n' | 'N' => Some(AreaDirection::North),
        's' | 'S' => Some(AreaDirection::South),
        'e' | 'E' => Some(AreaDirection::East),
        'w' | 'W' => Some(AreaDirection::West),
        _ => None,
    }
}

/// The cell a character other than a robot letter stands for.
fn cell_of_exec(c: char) -> (r: Option<AreaCell>)
    requires
        robot_mark(c) is None,
    ensures
        r == cell_of(c),
{
    match c {
        '#' | '@' => Some(AreaCell::Wall),
        '.' | ',' | ' ' => Some(AreaCell::Space),
        'x' | 'X' => Some(AreaCell::Goal),
        '1' => Some(AreaCell::Checkpoint(1)),
        '2' => Some(AreaCell::Checkpoint(2)),
        '3' => Some(AreaCell::Checkpoint(3)),
        '4' => Some(AreaCell::Checkpoint(4)),
        '5' => Some(AreaCell::Checkpoint(5)),
        '6' => Some(AreaCell::Checkpoint(6)),
        '7' => Some(AreaCell::Checkpoint(7)),
        '8' => Some(AreaCell::Checkpoint(8)),
        '9' => Some(AreaCell::Checkpoint(9)),
        _ => None,
    }
}

/// Whether a robot letter stands before `(x, y)` in reading order.
pub open spec fn read_before(x2: int, y2: int, x: int, y: int) -> bool {
    y2 < y || (y2 == y && x2 < x)
}

/// What reading the lines up to `(x, y)` has found of the robot.
pub open spec fn robot_found(
    ls: Seq<Seq<char>>,
    found: Option<(usize, usize)>,
    dir: Option<AreaDirection>,
    x: int,
    y: int,
) -> bool {
    match found {
        None => forall|x2: int, y2: int| #[trigger] robot_at(ls, x2, y2) ==> !read_before(x2, y2, x, y),
        Some((rx, ry)) => {
            &&& robot_at(ls, rx as int, ry as int)
            &&& read_before(rx as int, ry as int, x, y)
            &&& dir == Some(robot_mark(ls[ry as int][rx as int])->0)
            &&& forall|x2: int, y2: int| #[trigger]
                robot_at(ls, x2, y2) && read_before(x2, y2, x, y) ==> x2 == rx && y2 == ry
        },
    }
}

impl Robot {
    /// Reads a robot and its area from text, one line per row: `#` or `@`
    /// is a wall, `.`, `,` or a space an open cell, `x` or `X` the goal, a
    /// digit from 1 to 9 a checkpoint, and `n`, `e`, `s` or `w` (in either
    /// case) the robot on an open cell, facing that way. Short lines are
    /// padded with open cells. Fails on any other character, on a second
    /// robot, and when there is no robot.
    pub fn parse(s: &str) -> (r: Result<Robot, ()>)
        ensures
            r is Ok <==> describes_robot(s@),
            r is Ok ==> robot_of(s@, r->Ok_0@) && robot_wf(r->Ok_0@),
    {
        let mut chars: Vec<char> = Vec::new();
        for c in it: s.chars()
            invariant
                chars@ == it.seq().take(it.index() as int),
        {
            chars.push(c);
        }
        assert(chars@ == s@);
        let lines = split_lines(&chars);
        let ghost ls = text_lines(s@);
        let max_width = max_width(&lines);
        let height = lines.len();
        let ghost expected = area_of(ls, max_width as int);
        let mut area: Vec<Vec<AreaCell>> = Vec::new();
        let mut robot_location: Option<(usize, usize)> = None;
        let mut robot_direction: Option<AreaDirection> = None;
        let mut y: usize = 0;
        while y < height
            invariant
                lines_view(lines@) == ls,
                ls == text_lines(s@),
                height == ls.len(),
                max_width == max_len(ls),
                expected == area_of(ls, max_width as int),
                y <= height,
                area@.len() == y,
                forall|yy: int| 0 <= yy < y ==> #[trigger] area@[yy]@ == expected[yy],
                forall|yy: int, xx: int|
                    0 <= yy < y && 0 <= xx < ls[yy].len() ==> (#[trigger] cell_of(ls[yy][xx])) is Some,
                robot_found(ls, robot_location, robot_direction, 0, y as int),
            decreases height - y,
        {
            let mut row: Vec<AreaCell> = Vec::new();
            let mut x: usize = 0;
            while x < max_width
                invariant
                    lines_view(lines@) == ls,
                    ls == text_lines(s@),
                    height == ls.len(),
                    max_width == max_len(ls),
                    expected == area_of(ls, max_width as int),
                    y < height,
                    x <= max_width,
                    row@.len() == x,
                    forall|xx: int| 0 <= xx < x ==> #[trigger] row@[xx] == expected[y as int][xx],
                    forall|yy: int, xx: int|
                        0 <= yy < y && 0 <= xx < ls[yy].len() ==> (#[trigger] cell_of(ls[yy][xx])) is Some,
                    forall|xx: int|
                        0 <= xx < x && xx < ls[y as int].len() ==> (#[trigger] cell_of(ls[y as int][xx])) is Some,
                    robot_found(ls, robot_location, robot_direction, x as int, y as int),
                decreases max_width - x,
            {
                let ch = if x < lines[y].len() {
                    lines[y][x]
                } else {
                    ' '
                };
                proof {
                    assert(lines_view(lines@)[y as int] == lines@[y as int]@);
                }
                match robot_mark_exec(ch) {
                    Some(d) => {
                        if robot_location.is_some() {
                            proof {
                                let (rx, ry) = robot_location->0;
                                assert(robot_at(ls, x as int, y as int));
                                assert(robot_at(ls, rx as int, ry as int));
                                assert forall|a: int, b: int| !sole_robot(ls, a, b) by {
                                    if sole_robot(ls, a, b) {
                                        assert(robot_at(ls, x as int, y as int));
                                        assert(robot_at(ls, rx as int, ry as int));
                                    }
                                }
                            }
                            return Err(());
                        }
                        proof {
                            assert(robot_at(ls, x as int, y as int));
                        }
                        robot_location = Some((x, y));
                        robot_direction = Some(d);
                        row.push(AreaCell::Space);
                    },
                    None => match cell_of_exec(ch) {
                        Some(c) => row.push(c),
                        None => {
                            proof {
                                assert(0 <= x < ls[y as int].len());
                                assert(cell_of(ls[y as int][x as int]) is None);
                            }
                            return Err(());
                        },
                    },
                }
                x = x + 1;
            }
            proof {
                lemma_max_len(ls, y as int);
                assert(row@ =~= expected[y as int]);
                assert forall|x2: int, y2: int| #[trigger]
                    robot_at(ls, x2, y2) && read_before(x2, y2, x as int, y as int) implies read_before(
                    x2,
                    y2,
                    0,
                    y + 1,
                ) by {}
                lemma_row_done(ls, robot_location, robot_direction, max_width as int, y as int);
            }
            area.push(row);
            y = y + 1;
        }
        match robot_location {
            None => Err(()),
            Some(location) => {
                let direction = match robot_direction {
                    Some(d) => d,
                    None => AreaDirection::North,
                };
                proof {
                    assert(rows_view(area@) =~= expected);
                    lemma_max_len(ls, location.1 as int);
                    assert(sole_robot(ls, location.0 as int, location.1 as int));
                }
                let robot = Robot {
                    area,
                    area_size: (max_width, height),
                    location,
                    direction,
                    checkpoint_power: 1,
                };
                Ok(robot)
            },
        }
    }
}

/// Finishing a row carries what was found of the robot on to the next row.
proof fn lemma_row_done(
    ls: Seq<Seq<char>>,
    found: Option<(usize, usize)>,
    dir: Option<AreaDirection>,
    width: int,
    y: int,
)
    requires
        robot_found(ls, found, dir, width, y),
        0 <= y < ls.len(),
        ls[y].len() <= width,
    ensures
        robot_found(ls, found, dir, 0, y + 1),
{
    assert forall|x2: int, y2: int| #[trigger] robot_at(ls, x2, y2) && read_before(x2, y2, 0, y + 1) implies read_before(x2, y2, width, y) by {}
}

impl core::str::FromStr for Robot {
    type Err = ();

    fn from_str(s: &str) -> (r: Result<Self, Self::Err>)
        ensures
            r is Ok <==> describes_robot(s@),
            r is Ok ==> robot_of(s@, r->Ok_0@) && robot_wf(r->Ok_0@),
    {
        Robot::parse(s)
    }
}


// ---------------------------------------------------------------------------
// Drawing the area
// ---------------------------------------------------------------------------
/// `t` written `n` times.
pub open spec fn repeat_text(t: Seq<char>, n: nat) -> Seq<char>
    decreases n,
{
    if n == 0 {
        seq![]
    } else {
        repeat_text(t, (n - 1) as nat) + t
    }
}

/// The two characters that draw a checkpoint: its number, twice.
pub open spec fn checkpoint_glyph(o: u8) -> Seq<char> {
    if o == 1 {
        "11"@
    } else if o == 2 {
        "22"@
    } else if o == 3 {
        "33"@
    } else if o == 4 {
        "44"@
    } else if o == 5 {
        "55"@
    } else if o == 6 {
        "66"@
    } else if o == 7 {
        "77"@
    } else if o == 8 {
        "88"@
    } else {
        "99"@
    }
}

/// The two characters that draw the cell `(x, y)`: the robot's heading
/// where it stands, otherwise what the cell holds; `fancy` picks box-drawing
/// characters over plain ASCII.
pub open spec fn glyph(v: RobotView, x: int, y: int, fancy: bool) -> Seq<char> {
    if x == v.x && y == v.y {
        match v.direction {
            AreaDirection::North => if fancy { "▲▲"@ } else { "nn"@ },
            AreaDirection::East => if fancy { "►►"@ } else { "ee"@ },
            AreaDirection::South => if fancy { "▼▼"@ } else { "ss"@ },
            AreaDirection::West => if fancy { "◄◄"@ } else { "ww"@ },
        }
    } else {
        match v.area[y][x] {
            AreaCell::Wall => if fancy { "██"@ } else { "##"@ },
            AreaCell::Goal => if fancy { "╳╳"@ } else { "XX"@ },
            AreaCell::Space => if fancy { "░░"@ } else { ".."@ },
            AreaCell::Checkpoint(o) => checkpoint_glyph(o),
        }
    }
}

/// The first `n` cells of row `y`, each followed by a space.
pub open spec fn row_text(v: RobotView, y: int, n: nat, fancy: bool) -> Seq<char>
    decreases n,
{
    if n == 0 {
        seq![]
    } else {
        row_text(v, y, (n - 1) as nat, fancy) + glyph(v, n - 1, y, fancy) + " "@
    }
}

/// The first `n` rows, each between side borders and ended by a newline.
pub open spec fn rows_text(v: RobotView, n: nat, fancy: bool) -> Seq<char>
    decreases n,
{
    if n == 0 {
        seq![]
    } else {
        rows_text(v, (n - 1) as nat, fancy) + (if fancy { "│ "@ } else { "| "@ }) + row_text(
            v,
            n - 1,
            v.width as nat,
            fancy,
        ) + (if fancy { "│"@ } else { "|"@ }) + "\n"@
    }
}

/// A horizontal border: a corner, three rules per column and one more, a
/// corner, and a newline.
pub open spec fn border_text(width: nat, left: Seq<char>, rule: Seq<char>, right: Seq<char>) -> Seq<
    char,
> {
    left + repeat_text(rule + rule + rule, width) + rule + right + "\n"@
}

/// The drawing of the robot in its area, framed by a border.
pub open spec fn render_text(v: RobotView, fancy: bool) -> Seq<char> {
    if fancy {
        border_text(v.width as nat, "┌"@, "─"@, "┐"@) + rows_text(v, v.height as nat, true)
            + border_text(v.width as nat, "└"@, "─"@, "┘"@)
    } else {
        border_text(v.width as nat, "+"@, "-"@, "+"@) + rows_text(v, v.height as nat, false)
            + border_text(v.width as nat, "+"@, "-"@, "+"@)
    }
}

impl Robot {
    /// Appends a horizontal border to `out`.
    fn push_border(&self, out: &mut String, left: &str, rule: &str, right: &str)
        requires
            robot_wf(self@),
        ensures
            final(out)@ == old(out)@ + border_text(self@.width as nat, left@, rule@, right@),
    {
        let ghost start = out@;
        out.append(left);
        let mut k: usize = 0;
        while k < self.area_size.0
            invariant
                k <= self@.width,
                out@ == start + left@ + repeat_text(rule@ + rule@ + rule@, k as nat),
            decreases self@.width - k,
        {
            out.append(rule);
            out.append(rule);
            out.append(rule);
            proof {
                assert(out@ =~= start + left@ + repeat_text(rule@ + rule@ + rule@, (k + 1) as nat));
            }
            k = k + 1;
        }
        out.append(rule);
        out.append(right);
        out.append("\n");
        proof {
            assert(out@ =~= start + border_text(self@.width as nat, left@, rule@, right@));
        }
    }

    /// The two characters that draw the cell `(x, y)`.
    fn glyph_of(&self, x: usize, y: usize, fancy: bool) -> (r: &'static str)
        requires
            robot_wf(self@),
            x < self@.width,
            y < self@.height,
        ensures
            r@ == glyph(self@, x as int, y as int, fancy),
    {
        if x == self.location.0 && y == self.location.1 {
            match self.direction {
                AreaDirection::North => if fancy { "▲▲" } else { "nn" },
                AreaDirection::East => if fancy { "►►" } else { "ee" },
                AreaDirection::South => if fancy { "▼▼" } else { "ss" },
                AreaDirection::West => if fancy { "◄◄" } else { "ww" },
            }
        } else {
            proof {
                assert(self@.area[y as int] == self.area@[y as int]@);
            }
            match self.area[y][x] {
                AreaCell::Wall => if fancy { "██" } else { "##" },
                AreaCell::Goal => if fancy { "╳╳" } else { "XX" },
                AreaCell::Space => if fancy { "░░" } else { ".." },
                AreaCell::Checkpoint(o) => if o == 1 {
                    "11"
                } else if o == 2 {
                    "22"
                } else if o == 3 {
                    "33"
                } else if o == 4 {
                    "44"
                } else if o == 5 {
                    "55"
                } else if o == 6 {
                    "66"
                } else if o == 7 {
                    "77"
                } else if o == 8 {
                    "88"
                } else {
                    "99"
                },
            }
        }
    }

    /// Draws the robot in its area, with box-drawing characters (`fancy`)
    /// or plain ASCII.
    fn draw(&self, fancy: bool) -> (r: String)
        requires
            robot_wf(self@),
        ensures
            r@ == render_text(self@, fancy),
    {
        let (width, height) = self.area_size;
        let mut out = String::new();
        if fancy {
            self.push_border(&mut out, "┌", "─", "┐");
        } else {
            self.push_border(&mut out, "+", "-", "+");
        }
        let ghost top = out@;
        let mut y: usize = 0;
        while y < height
            invariant
                robot_wf(self@),
                width == self@.width,
                height == self@.height,
                y <= height,
                out@ == top + rows_text(self@, y as nat, fancy),
            decreases height - y,
        {
            let ghost before = out@;
            out.append(if fancy { "│ " } else { "| " });
            let ghost row_start = out@;
            let mut x: usize = 0;
            while x < width
                invariant
                    robot_wf(self@),
                    width == self@.width,
                    height == self@.height,
                    y < height,
                    x <= width,
                    out@ == row_start + row_text(self@, y as int, x as nat, fancy),
                decreases width - x,
            {
                out.append(self.glyph_of(x, y, fancy));
                out.append(" ");
                proof {
                    assert(out@ =~= row_start + row_text(self@, y as int, (x + 1) as nat, fancy));
                }
                x = x + 1;
            }
            out.append(if fancy { "│" } else { "|" });
            out.append("\n");
            proof {
                assert(out@ =~= top + rows_text(self@, (y + 1) as nat, fancy));
            }
            y = y + 1;
        }
        let ghost body = out@;
        if fancy {
            self.push_border(&mut out, "└", "─", "┘");
        } else {
            self.push_border(&mut out, "+", "-", "+");
        }
        proof {
            assert(out@ =~= render_text(self@, fancy));
        }
        out
    }

    /// The robot in its area drawn with box-drawing characters: walls as
    /// full blocks, the goal as crosses, open cells shaded, checkpoints by
    /// number and the robot as an arrow the way it faces.
    pub fn render(&self) -> (r: String)
        ensures
            robot_wf(self@),
            r@ == render_text(self@, true),
    {
        proof {
            use_type_invariant(self);
        }
        self.draw(true)
    }

    /// The robot in its area drawn in plain ASCII: `#` walls, `X` the goal,
    /// `.` open cells, checkpoints by number and the robot as the letter of
    /// the way it faces.
    pub fn render_ascii(&self) -> (r: String)
        ensures
            robot_wf(self@),
            r@ == render_text(self@, false),
    {
        proof {
            use_type_invariant(self);
        }
        self.draw(false)
    }
}


// ---------------------------------------------------------------------------
// Laws
// ---------------------------------------------------------------------------
/// Turning left and then right, or right and then left, faces the robot
/// the way it faced before.
pub proof fn lemma_turns_undo(d: AreaDirection)
    ensures
        turned_right(turned_left(d)) == d,
        turned_left(turned_right(d)) == d,
{
}

/// Four quarter turns the same way face the robot the way it faced before.
pub proof fn lemma_four_turns(d: AreaDirection)
    ensures
        turned_left(turned_left(turned_left(turned_left(d)))) == d,
        turned_right(turned_right(turned_right(turned_right(d)))) == d,
{
}

/// The robot facing `d` instead.
pub open spec fn facing(v: RobotView, d: AreaDirection) -> RobotView {
    RobotView { direction: d, ..v }
}

/// Checking a relative direction is checking straight ahead after turning
/// that way: left after a left turn, right after a right turn, backward
/// after two turns.
pub proof fn lemma_relative_is_turn(v: RobotView)
    ensures
        can_move_to(v, RelativeDirection::Left) == can_move_to(
            facing(v, turned_left(v.direction)),
            RelativeDirection::Forward,
        ),
        can_move_to(v, RelativeDirection::Right) == can_move_to(
            facing(v, turned_right(v.direction)),
            RelativeDirection::Forward,
        ),
        can_move_to(v, RelativeDirection::Backward) == can_move_to(
            facing(v, turned_right(turned_right(v.direction))),
            RelativeDirection::Forward,
        ),
{
}

/// A step forward keeps every robot's invariant: it stays in its area on
/// no wall, its power stays between 1 and 10, and the checkpoints left are
/// numbered from its power up.
pub proof fn lemma_move_keeps_wf(v: RobotView)
    requires
        robot_wf(v),
    ensures
        robot_wf(moved(v).1),
{
    if can_move_to(v, RelativeDirection::Forward) {
        let (x, y) = step(v.x, v.y, v.direction);
        assert(absolute(v.direction, RelativeDirection::Forward) == v.direction);
        let w = moved(v).1;
        assert forall|yy: int| 0 <= yy < w.height implies #[trigger] w.area[yy].len() == w.width by {
            assert(v.area[yy].len() == v.width);
        }
        if let AreaCell::Checkpoint(o) = v.area[y][x] {
            if v.power >= o {
                let a = cleared(v.area, x, y);
                assert forall|yy: int, xx: int| in_area(a, xx, yy) implies (#[trigger] a[yy][xx] matches AreaCell::Checkpoint(p)
                    ==> w.power <= p <= 9) by {
                    assert(in_area(v.area, xx, yy));
                    if let AreaCell::Checkpoint(p) = a[yy][xx] {
                        assert(v.area[yy][xx] == a[yy][xx]);
                        if !has_checkpoint_upto(a, v.power) {
                            assert(!(a[yy][xx] matches AreaCell::Checkpoint(q) && q <= v.power));
                        }
                    }
                }
            }
        }
    }
}

/// Turning keeps every robot's invariant.
pub proof fn lemma_turn_keeps_wf(v: RobotView, d: AreaDirection)
    requires
        robot_wf(v),
    ensures
        robot_wf(facing(v, d)),
{
}

/// Reaching the goal (a step forward that answers `true`) happens only once
/// no checkpoint is left.
pub proof fn lemma_goal_after_checkpoints(v: RobotView)
    requires
        robot_wf(v),
        moved(v).0 == Some(true),
    ensures
        !has_checkpoint_upto(moved(v).1.area, 255),
        !has_checkpoint_upto(v.area, 255),
{
    let (x, y) = step(v.x, v.y, v.direction);
    let a = cleared(v.area, x, y);
    assert forall|yy: int, xx: int| in_area(a, xx, yy) implies !(#[trigger] a[yy][xx] matches AreaCell::Checkpoint(o)
        && o <= 255) by {
        assert(in_area(v.area, xx, yy));
        if yy != y || xx != x {
            assert(a[yy][xx] == v.area[yy][xx]);
            assert(!(v.area[yy][xx] matches AreaCell::Checkpoint(o) && o <= 255));
        }
    }
}

/// Checkpoints are captured in order: stepping onto a checkpoint captures
/// it exactly when its number is the robot's power, and leaves the area as
/// it was otherwise.
pub proof fn lemma_capture_in_order(v: RobotView, o: u8)
    requires
        robot_wf(v),
        can_move_to(v, RelativeDirection::Forward),
        ({
            let (x, y) = step(v.x, v.y, v.direction);
            v.area[y][x] == AreaCell::Checkpoint(o)
        }),
    ensures
        ({
            let (x, y) = step(v.x, v.y, v.direction);
            &&& o == v.power ==> moved(v).1.area == cleared(v.area, x, y)
            &&& o != v.power ==> moved(v).1.area == v.area
        }),
{
    let (x, y) = step(v.x, v.y, v.direction);
    assert(absolute(v.direction, RelativeDirection::Forward) == v.direction);
    assert(in_area(v.area, x, y));
}

/// A step forward goes to the neighbouring cell the robot faces, with row
/// 0 at the top: north is the row above, south the row below, east the
/// next column, west the one before. The robot can step exactly when that
/// cell is in the area and no wall, and otherwise nothing changes.
pub proof fn lemma_forward_is_one_cell(v: RobotView)
    requires
        robot_wf(v),
    ensures
        can_move_to(v, RelativeDirection::Forward) <==> (match v.direction {
            AreaDirection::North => v.y > 0 && v.area[v.y - 1][v.x] != AreaCell::Wall,
            AreaDirection::South => v.y + 1 < v.height && v.area[v.y + 1][v.x] != AreaCell::Wall,
            AreaDirection::East => v.x + 1 < v.width && v.area[v.y][v.x + 1] != AreaCell::Wall,
            AreaDirection::West => v.x > 0 && v.area[v.y][v.x - 1] != AreaCell::Wall,
        }),
        moved(v).0 is Some <==> can_move_to(v, RelativeDirection::Forward),
        moved(v).0 is Some ==> (moved(v).1.x, moved(v).1.y) == (match v.direction {
            AreaDirection::North => (v.x, v.y - 1),
            AreaDirection::South => (v.x, v.y + 1),
            AreaDirection::East => (v.x + 1, v.y),
            AreaDirection::West => (v.x - 1, v.y),
        }),
        moved(v).0 is None ==> moved(v).1 == v,
{
    assert(absolute(v.direction, RelativeDirection::Forward) == v.direction);
}

/// A robot read from a map faces the way its letter says: `n` or `N`
/// north, `e` or `E` east, `s` or `S` south, `w` or `W` west.
pub proof fn lemma_parsed_robot_faces_its_letter(s: Seq<char>, v: RobotView)
    requires
        robot_of(s, v),
    ensures
        ({
            let c = text_lines(s)[v.y][v.x];
            &&& c == 'n' || c == 'N' || c == 'e' || c == 'E' || c == 's' || c == 'S' || c == 'w'
                || c == 'W'
            &&& (c == 'n' || c == 'N') ==> v.direction == AreaDirection::North
            &&& (c == 'e' || c == 'E') ==> v.direction == AreaDirection::East
            &&& (c == 's' || c == 'S') ==> v.direction == AreaDirection::South
            &&& (c == 'w' || c == 'W') ==> v.direction == AreaDirection::West
        }),
{
}

/// A checkpoint the robot does not stand on is drawn as its number's digit
/// written twice, in either style.
pub proof fn lemma_checkpoint_drawn_as_digit(v: RobotView, x: int, y: int, o: u8, fancy: bool)
    requires
        in_area(v.area, x, y),
        !(x == v.x && y == v.y),
        v.area[y][x] == AreaCell::Checkpoint(o),
        1 <= o <= 9,
    ensures
        glyph(v, x, y, fancy).len() == 2,
        glyph(v, x, y, fancy)[0] as int == '0' as int + o,
        glyph(v, x, y, fancy)[1] == glyph(v, x, y, fancy)[0],
{
    reveal_strlit("11");
    reveal_strlit("22");
    reveal_strlit("33");
    reveal_strlit("44");
    reveal_strlit("55");
    reveal_strlit("66");
    reveal_strlit("77");
    reveal_strlit("88");
    reveal_strlit("99");
}

/// In plain ASCII the robot is drawn as the letter of its heading written
/// twice: `nn`, `ee`, `ss` or `ww`.
pub proof fn lemma_robot_drawn_as_heading(v: RobotView)
    ensures
        glyph(v, v.x, v.y, false) == (match v.direction {
            AreaDirection::North => seq!['n', 'n'],
            AreaDirection::East => seq!['e', 'e'],
            AreaDirection::South => seq!['s', 's'],
            AreaDirection::West => seq!['w', 'w'],
        }),
{
    reveal_strlit("nn");
    reveal_strlit("ee");
    reveal_strlit("ss");
    reveal_strlit("ww");
    assert("nn"@ =~= seq!['n', 'n']);
    assert("ee"@ =~= seq!['e', 'e']);
    assert("ss"@ =~= seq!['s', 's']);
    assert("ww"@ =~= seq!['w', 'w']);
}

} // verus!
