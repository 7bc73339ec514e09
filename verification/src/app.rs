use vstd::prelude::*;

use crate::records::{CountryTweets, HashtagCount, Reply, UserTweets};
use crate::text::{decimal, decimal_text};
use crate::triangle::Triple;

verus! {

/// The number of queries the viewer offers, in this order: triangles, tweets
/// per hashtag, verified tweet mix, replies by the watched account, top
/// country, top user.
pub const QUERY_COUNT: usize = 6;

/// How many rows one page step moves.
pub const PAGE_STEP: usize = 10;

/// The results of all queries. `D` is the row type of the verified tweet
/// mix, whose percentages the library never reads.
pub struct QueryData<D> {
    pub country: Result<CountryTweets, String>,
    pub top_user: Result<UserTweets, String>,
    pub hashtags: Vec<HashtagCount>,
    pub replies: Vec<Reply>,
    pub user_dist: Vec<D>,
    pub triangles: Vec<Triple>,
}

impl<D> QueryData<D> {
    /// How many rows query `query` has: the length of its list, or one for a
    /// top-country or top-user result that arrived, zero for one that failed
    /// and for a query number out of range.
    pub open spec fn rows(&self, query: int) -> nat {
        if query == 0 {
            self.triangles@.len()
        } else if query == 1 {
            self.hashtags@.len()
        } else if query == 2 {
            self.user_dist@.len()
        } else if query == 3 {
            self.replies@.len()
        } else if query == 4 {
            if self.country is Ok { 1 } else { 0 }
        } else if query == 5 {
            if self.top_user is Ok { 1 } else { 0 }
        } else {
            0
        }
    }
}

/// `a - b`, or zero when `b` is larger.
pub open spec fn sat_sub(a: int, b: int) -> int {
    if a >= b { a - b } else { 0 }
}

pub open spec fn min(a: int, b: int) -> int {
    if a <= b { a } else { b }
}

/// The query that follows `q`, wrapping from the last to the first.
pub open spec fn next_query_of(q: int) -> int {
    (q + 1) % (QUERY_COUNT as int)
}

/// The query before `q`, wrapping from the first to the last.
pub open spec fn previous_query_of(q: int) -> int {
    if q == 0 { QUERY_COUNT - 1 } else { q - 1 }
}

/// The first row on screen after a page down from `offset` over `rows` rows:
/// one page further, but no further than the last row.
pub open spec fn page_down(offset: int, rows: int) -> int {
    min(offset + PAGE_STEP, sat_sub(rows, 1))
}

/// The first row on screen after a page up from `offset`: one page back, but
/// no further than the first row.
pub open spec fn page_up(offset: int) -> int {
    sat_sub(offset, PAGE_STEP as int)
}

/// The triangle shown after stepping forward from `index` among `count`
/// triangles: the next one, but no further than the last.
pub open spec fn triangle_forward(index: int, count: int) -> int {
    min(index + 1, sat_sub(count, 1))
}

/// The triangle shown after stepping back from `index`: the previous one, but
/// no further than the first.
pub open spec fn triangle_back(index: int) -> int {
    sat_sub(index, 1)
}

/// Stepping to the next query and back, or back and then on, returns to the
/// query one started from.
pub proof fn law_query_steps_undo(q: int)
    requires
        0 <= q < QUERY_COUNT,
    ensures
        previous_query_of(next_query_of(q)) == q,
        next_query_of(previous_query_of(q)) == q,
{
}

/// Stepping to the next query as many times as there are queries returns to
/// the query one started from.
pub proof fn law_query_cycle(q: int)
    requires
        0 <= q < QUERY_COUNT,
    ensures
        next_query_of(next_query_of(next_query_of(next_query_of(next_query_of(next_query_of(q))))))
            == q,
{
}

/// A page up undoes a page down that did not stop at the last row.
pub proof fn law_page_up_undoes_page_down(offset: int, rows: int)
    requires
        0 <= offset,
        offset + PAGE_STEP <= rows - 1,
    ensures
        page_up(page_down(offset, rows)) == offset,
{
}

/// Stepping back undoes stepping forward to a triangle that was not the last.
pub proof fn law_triangle_back_undoes_forward(index: int, count: int)
    requires
        0 <= index,
        index + 1 <= count - 1,
    ensures
        triangle_back(triangle_forward(index, count)) == index,
{
}

/// The browsing state of the viewer: which query is shown, the first row on
/// screen, and which triangle is shown.
pub struct App<D> {
    selected_query: usize,
    offset: usize,
    triangle_index: usize,
    data: QueryData<D>,
}

impl<D> App<D> {
    /// The shown query exists, the shown triangle is one of the triangles
    /// (or the first slot when there is none), and the first row on screen
    /// is one of the rows (or the first slot when there is none).
    #[verifier::type_invariant]
    spec fn inv(&self) -> bool {
        &&& self.selected_query < QUERY_COUNT
        &&& self.triangle_index <= sat_sub(self.data.triangles.len() as int, 1)
        &&& self.offset <= sat_sub(self.data.rows(self.selected_query as int) as int, 1)
    }

    pub closed spec fn spec_selected_query(&self) -> usize {
        self.selected_query
    }

    pub closed spec fn spec_offset(&self) -> usize {
        self.offset
    }

    pub closed spec fn spec_triangle_index(&self) -> usize {
        self.triangle_index
    }

    pub closed spec fn spec_data(&self) -> QueryData<D> {
        self.data
    }

    /// What every state of the viewer satisfies.
    pub open spec fn within_bounds(&self) -> bool {
        &&& self.spec_selected_query() < QUERY_COUNT
        &&& self.spec_triangle_index() <= sat_sub(self.spec_data().triangles.len() as int, 1)
        &&& self.spec_offset() <= sat_sub(
            self.spec_data().rows(self.spec_selected_query() as int) as int,
            1,
        )
    }

    /// The viewer on the first query, first row and first triangle.
    pub fn new(data: QueryData<D>) -> (r: Self)
        ensures
            r.spec_selected_query() == 0,
            r.spec_offset() == 0,
            r.spec_triangle_index() == 0,
            r.spec_data() == data,
            r.within_bounds(),
    {
        App { selected_query: 0, offset: 0, triangle_index: 0, data }
    }

    #[verifier::when_used_as_spec(spec_selected_query)]
    pub fn selected_query(&self) -> (r: usize)
        ensures
            r == self.spec_selected_query(),
    {
        self.selected_query
    }

    #[verifier::when_used_as_spec(spec_offset)]
    pub fn offset(&self) -> (r: usize)
        ensures
            r == self.spec_offset(),
    {
        self.offset
    }

    #[verifier::when_used_as_spec(spec_triangle_index)]
    pub fn triangle_index(&self) -> (r: usize)
        ensures
            r == self.spec_triangle_index(),
    {
        self.triangle_index
    }

    pub fn data(&self) -> (r: &QueryData<D>)
        ensures
            *r == self.spec_data(),
    {
        &self.data
    }

    /// How many rows the shown query has.
    pub fn item_count(&self) -> (r: usize)
        ensures
            r == self.spec_data().rows(self.spec_selected_query() as int),
            self.spec_selected_query() == 0 ==> r == self.spec_data().triangles.len(),
            self.spec_selected_query() == 1 ==> r == self.spec_data().hashtags.len(),
            self.spec_selected_query() == 2 ==> r == self.spec_data().user_dist.len(),
            self.spec_selected_query() == 3 ==> r == self.spec_data().replies.len(),
            self.spec_selected_query() == 4 ==> (r == 1 <==> self.spec_data().country is Ok) && r
                <= 1,
            self.spec_selected_query() == 5 ==> (r == 1 <==> self.spec_data().top_user is Ok) && r
                <= 1,
    {
        match self.selected_query {
            0 => self.data.triangles.len(),
            1 => self.data.hashtags.len(),
            2 => self.data.user_dist.len(),
            3 => self.data.replies.len(),
            4 => if self.data.country.is_ok() { 1 } else { 0 },
            5 => if self.data.top_user.is_ok() { 1 } else { 0 },
            _ => 0,
        }
    }

    fn clamp_triangle(&self) -> (r: usize)
        ensures
            r == min(self.triangle_index as int, sat_sub(self.data.triangles.len() as int, 1)),
    {
        let last = if self.data.triangles.len() == 0 { 0 } else { self.data.triangles.len() - 1 };
        if self.triangle_index < last { self.triangle_index } else { last }
    }

    /// Shows the next query, wrapping from the last to the first, from its
    /// first row.
    pub fn next_query(&mut self)
        ensures
            final(self).spec_selected_query() == next_query_of(old(self).spec_selected_query() as int),
            final(self).spec_offset() == 0,
            final(self).spec_triangle_index() == min(
                old(self).spec_triangle_index() as int,
                sat_sub(old(self).spec_data().triangles.len() as int, 1),
            ),
            final(self).spec_data() == old(self).spec_data(),
            final(self).within_bounds(),
    {
        proof {
            use_type_invariant(&*self);
        }
        let t = self.clamp_triangle();
        let q = (self.selected_query + 1) % QUERY_COUNT;
        self.offset = 0;
        self.triangle_index = t;
        self.selected_query = q;
    }

    /// Shows the previous query, wrapping from the first to the last, from
    /// its first row.
    pub fn previous_query(&mut self)
        ensures
            final(self).spec_selected_query() == previous_query_of(old(self).spec_selected_query() as int),
            final(self).spec_offset() == 0,
            final(self).spec_triangle_index() == min(
                old(self).spec_triangle_index() as int,
                sat_sub(old(self).spec_data().triangles.len() as int, 1),
            ),
            final(self).spec_data() == old(self).spec_data(),
            final(self).within_bounds(),
    {
        proof {
            use_type_invariant(&*self);
        }
        let t = self.clamp_triangle();
        let q = if self.selected_query == 0 { QUERY_COUNT - 1 } else { self.selected_query - 1 };
        self.offset = 0;
        self.triangle_index = t;
        self.selected_query = q;
    }

    /// On the triangle query, shows the next triangle, staying on the last;
    /// on any other query, moves a page down, stopping at the last row.
    pub fn next_page(&mut self)
        ensures
            final(self).spec_selected_query() == old(self).spec_selected_query(),
            final(self).spec_data() == old(self).spec_data(),
            old(self).spec_selected_query() == 0 ==> {
                &&& final(self).spec_triangle_index() == triangle_forward(
                    old(self).spec_triangle_index() as int,
                    old(self).spec_data().triangles.len() as int,
                )
                &&& final(self).spec_offset() == old(self).spec_offset()
            },
            old(self).spec_selected_query() != 0 ==> {
                &&& final(self).spec_offset() == page_down(
                    old(self).spec_offset() as int,
                    old(self).spec_data().rows(old(self).spec_selected_query() as int) as int,
                )
                &&& final(self).spec_triangle_index() == old(self).spec_triangle_index()
            },
            final(self).within_bounds(),
    {
        proof {
            use_type_invariant(&*self);
        }
        if self.selected_query == 0 {
            let len = self.data.triangles.len();
            let last = if len == 0 { 0 } else { len - 1 };
            let next = self.triangle_index + 1;
            self.triangle_index = if next < last { next } else { last };
            return;
        }
        let count = self.item_count();
        let max_offset = if count == 0 { 0 } else { count - 1 };
        self.offset = if max_offset - self.offset > PAGE_STEP {
            self.offset + PAGE_STEP
        } else {
            max_offset
        };
    }

    /// On the triangle query, shows the previous triangle, staying on the
    /// first; on any other query, moves a page up, stopping at the first row.
    pub fn previous_page(&mut self)
        ensures
            final(self).spec_selected_query() == old(self).spec_selected_query(),
            final(self).spec_data() == old(self).spec_data(),
            old(self).spec_selected_query() == 0 ==> {
                &&& final(self).spec_triangle_index() == triangle_back(old(self).spec_triangle_index() as int)
                &&& final(self).spec_offset() == old(self).spec_offset()
            },
            old(self).spec_selected_query() != 0 ==> {
                &&& final(self).spec_offset() == page_up(old(self).spec_offset() as int)
                &&& final(self).spec_triangle_index() == old(self).spec_triangle_index()
            },
            final(self).within_bounds(),
    {
        proof {
            use_type_invariant(&*self);
        }
        if self.selected_query == 0 {
            self.triangle_index = if self.triangle_index == 0 { 0 } else { self.triangle_index - 1 };
            return;
        }
        self.offset = if self.offset < PAGE_STEP { 0 } else { self.offset - PAGE_STEP };
    }
}

/// A key the viewer reacts to, as read from the terminal.
pub enum Key {
    Char(char),
    Esc,
    Up,
    Down,
    Left,
    Right,
    Other,
}

/// What a key asks the viewer to do.
pub enum Command {
    Quit,
    NextQuery,
    PreviousQuery,
    NextPage,
    PreviousPage,
    Nothing,
}

/// The command of a key event: only presses count; `q` or Esc quits, Down or
/// `j` and Up or `k` change the query, Right or `l` and Left or `h` page.
pub open spec fn command_of(key: Key, pressed: bool) -> Command {
    if !pressed {
        Command::Nothing
    } else {
        match key {
            Key::Char(c) => if c == 'q' {
                Command::Quit
            } else if c == 'j' {
                Command::NextQuery
            } else if c == 'k' {
                Command::PreviousQuery
            } else if c == 'l' {
                Command::NextPage
            } else if c == 'h' {
                Command::PreviousPage
            } else {
                Command::Nothing
            },
            Key::Esc => Command::Quit,
            Key::Down => Command::NextQuery,
            Key::Up => Command::PreviousQuery,
            Key::Right => Command::NextPage,
            Key::Left => Command::PreviousPage,
            Key::Other => Command::Nothing,
        }
    }
}

/// Each list query counts the rows of its own list, and each single-result
/// query one row when its result arrived and none when it failed.
pub proof fn law_rows_are_the_lists<D>(data: QueryData<D>)
    ensures
        data.rows(0) == data.triangles@.len(),
        data.rows(1) == data.hashtags@.len(),
        data.rows(2) == data.user_dist@.len(),
        data.rows(3) == data.replies@.len(),
        data.rows(4) <= 1 && (data.rows(4) == 1 <==> data.country is Ok),
        data.rows(5) <= 1 && (data.rows(5) == 1 <==> data.top_user is Ok),
{
}

/// A key that is let go, or held down, asks for nothing: only presses count.
pub proof fn law_only_presses_count(key: Key)
    ensures
        command_of(key, false) is Nothing,
{
}

/// Of the keys pressed, `q` and Esc quit, Down and `j` go to the next query,
/// Up and `k` to the previous one, Right and `l` page forward, Left and `h`
/// page back, and every other key does nothing.
pub proof fn law_pressed_keys(key: Key)
    ensures
        command_of(key, true) is Quit <==> (key == Key::Char('q') || key is Esc),
        command_of(key, true) is NextQuery <==> (key == Key::Char('j') || key is Down),
        command_of(key, true) is PreviousQuery <==> (key == Key::Char('k') || key is Up),
        command_of(key, true) is NextPage <==> (key == Key::Char('l') || key is Right),
        command_of(key, true) is PreviousPage <==> (key == Key::Char('h') || key is Left),
{
}

/// The command of a key event.
pub fn command_for(key: Key, pressed: bool) -> (r: Command)
    ensures
        r == command_of(key, pressed),
        !pressed ==> r is Nothing,
{
    if !pressed {
        return Command::Nothing;
    }
    match key {
        Key::Char(c) => if c == 'q' {
            Command::Quit
        } else if c == 'j' {
            Command::NextQuery
        } else if c == 'k' {
            Command::PreviousQuery
        } else if c == 'l' {
            Command::NextPage
        } else if c == 'h' {
            Command::PreviousPage
        } else {
            Command::Nothing
        },
        Key::Esc => Command::Quit,
        Key::Down => Command::NextQuery,
        Key::Up => Command::PreviousQuery,
        Key::Right => Command::NextPage,
        Key::Left => Command::PreviousPage,
        Key::Other => Command::Nothing,
    }
}

/// The (query, first row, triangle) the viewer shows after `command`, from
/// query `q`, first row `offset` and triangle `tri` over `data`: a query step
/// starts the new query at its first row and keeps the triangle within the
/// triangles; a page step moves the triangle on the triangle query and the
/// first row on any other; quitting and other keys change nothing.
pub open spec fn state_after<D>(
    command: Command,
    q: int,
    offset: int,
    tri: int,
    data: QueryData<D>,
) -> (int, int, int) {
    let triangles = data.triangles@.len() as int;
    match command {
        Command::NextQuery => (next_query_of(q), 0, min(tri, sat_sub(triangles, 1))),
        Command::PreviousQuery => (previous_query_of(q), 0, min(tri, sat_sub(triangles, 1))),
        Command::NextPage => if q == 0 {
            (q, offset, triangle_forward(tri, triangles))
        } else {
            (q, page_down(offset, data.rows(q) as int), tri)
        },
        Command::PreviousPage => if q == 0 {
            (q, offset, triangle_back(tri))
        } else {
            (q, page_up(offset), tri)
        },
        _ => (q, offset, tri),
    }
}

impl<D> App<D> {
    /// Carries out a command; tells whether the viewer keeps running.
    pub fn apply(&mut self, command: Command) -> (keep_running: bool)
        ensures
            keep_running == !(command is Quit),
            final(self).within_bounds(),
            final(self).spec_data() == old(self).spec_data(),
            (
                final(self).spec_selected_query() as int,
                final(self).spec_offset() as int,
                final(self).spec_triangle_index() as int,
            ) == state_after(
                command,
                old(self).spec_selected_query() as int,
                old(self).spec_offset() as int,
                old(self).spec_triangle_index() as int,
                old(self).spec_data(),
            ),
    {
        proof {
            use_type_invariant(&*self);
        }
        match command {
            Command::Quit => false,
            Command::NextQuery => {
                self.next_query();
                true
            },
            Command::PreviousQuery => {
                self.previous_query();
                true
            },
            Command::NextPage => {
                self.next_page();
                true
            },
            Command::PreviousPage => {
                self.previous_page();
                true
            },
            Command::Nothing => true,
        }
    }
}

/// The title of the triangle panel: plain when there are none, else which
/// triangle of how many is shown, counted from one.
pub open spec fn triangle_title_words(index: int, count: int) -> Seq<char> {
    if count == 0 {
        "3D Triangles"@
    } else {
        "3D Triangles "@ + decimal((index + 1) as nat) + "/"@ + decimal(count as nat)
    }
}

/// The title of the triangle panel.
pub fn triangle_title(index: usize, count: usize) -> (r: String)
    requires
        count > 0 ==> index < usize::MAX,
    ensures
        r@ == triangle_title_words(index as int, count as int),
{
    if count == 0 {
        return String::from_str("3D Triangles");
    }
    let mut r = String::from_str("3D Triangles ");
    r.append(decimal_text((index + 1) as u64).as_str());
    r.append("/");
    r.append(decimal_text(count as u64).as_str());
    r
}

/// The name of query `q` as the viewer lists it.
pub open spec fn query_label_of(q: int) -> Seq<char> {
    if q == 0 {
        "Triangles"@
    } else if q == 1 {
        "Tweets / Hashtag"@
    } else if q == 2 {
        "Verified Tweet Mix"@
    } else if q == 3 {
        "Replies by blcklcfr"@
    } else if q == 4 {
        "Top Country"@
    } else {
        "Top User"@
    }
}

/// The name of a query as the viewer lists it.
pub fn query_label(q: usize) -> (r: &'static str)
    requires
        q < QUERY_COUNT,
    ensures
        r@ == query_label_of(q as int),
{
    if q == 0 {
        "Triangles"
    } else if q == 1 {
        "Tweets / Hashtag"
    } else if q == 2 {
        "Verified Tweet Mix"
    } else if q == 3 {
        "Replies by blcklcfr"
    } else if q == 4 {
        "Top Country"
    } else {
        "Top User"
    }
}

impl<D> App<D> {
    /// The title line of the viewer: the shown query and how many rows it has.
    pub fn header_title(&self) -> (r: String)
        ensures
            r@ == "Tweet Query Visualizer - "@ + query_label_of(self.spec_selected_query() as int)
                + " - "@ + decimal(self.spec_data().rows(self.spec_selected_query() as int)) + " rows"@,
    {
        proof {
            use_type_invariant(self);
        }
        let mut r = String::from_str("Tweet Query Visualizer - ");
        r.append(query_label(self.selected_query));
        r.append(" - ");
        r.append(decimal_text(self.item_count() as u64).as_str());
        r.append(" rows");
        r
    }
}

} // verus!
