use vstd::prelude::*;
use vstd::string::*;

use crate::text::{decimal, push_decimal};

verus! {

/// Event carrying points for the on-screen score board.
#[derive(Debug)]
pub struct AddScoreEvent(pub u32);

/// Sum of the points carried by a sequence of score-board events.
pub open spec fn event_points(events: Seq<AddScoreEvent>) -> nat
    decreases events.len(),
{
    if events.len() == 0 {
        0
    } else {
        event_points(events.drop_last()) + events.last().0 as nat
    }
}

/// The caption of a board holding `score`: `Score: ` and the number.
pub open spec fn caption(score: u32) -> Seq<char> {
    seq!['S', 'c', 'o', 'r', 'e', ':', ' '] + decimal(score as nat)
}

fn caption_string(score: u32) -> (s: String)
    ensures
        s@ == caption(score),
{
    let mut s = String::new();
    s.append("Score: ");
    proof {
        reveal_strlit("Score: ");
    }
    push_decimal(&mut s, score as u64);
    proof {
        assert(Seq::<char>::empty() + "Score: "@ =~= seq!['S', 'c', 'o', 'r', 'e', ':', ' ']);
    }
    s
}

/// The score board shown while playing.
#[derive(Debug, Clone)]
pub struct ScoreBoardComponent {
    score: u32,
}

impl ScoreBoardComponent {
    pub closed spec fn points(&self) -> u32 {
        self.score
    }

    /// A fresh board at zero, as set up when a game starts.
    pub fn reset() -> (b: ScoreBoardComponent)
        ensures
            b.points() == 0,
    {
        ScoreBoardComponent { score: 0 }
    }

    pub fn score(&self) -> (s: u32)
        ensures
            s == self.points(),
    {
        self.score
    }

    /// The text the board displays.
    pub fn to_string(&self) -> (s: String)
        ensures
            s@ == caption(self.points()),
    {
        caption_string(self.score)
    }

    /// Adds the points of all pending events to the board.
    pub fn update(&mut self, events: &Vec<AddScoreEvent>)
        requires
            old(self).points() + event_points(events@) <= u32::MAX,
        ensures
            final(self).points() == old(self).points() + event_points(events@),
    {
        let sum = sum_event_points(events, (u32::MAX - self.score) as u32);
        if sum > 0 {
            self.score = self.score + sum;
        }
    }
}

/// Sum of the event points, given that it does not exceed `bound`.
fn sum_event_points(events: &Vec<AddScoreEvent>, bound: u32) -> (sum: u32)
    requires
        event_points(events@) <= bound,
    ensures
        sum == event_points(events@),
{
    let mut sum: u32 = 0;
    let mut i: usize = 0;
    while i < events.len()
        invariant
            i <= events.len(),
            sum == event_points(events@.take(i as int)),
            event_points(events@) <= bound,
        decreases events.len() - i,
    {
        proof {
            lemma_event_points_prefix_bound(events@, i as int + 1);
            assert(events@.take(i as int + 1).drop_last() =~= events@.take(i as int));
        }
        sum = sum + events[i].0;
        i = i + 1;
    }
    proof {
        assert(events@.take(events.len() as int) =~= events@);
    }
    sum
}

proof fn lemma_event_points_prefix_bound(events: Seq<AddScoreEvent>, n: int)
    requires
        0 <= n <= events.len(),
    ensures
        event_points(events.take(n)) <= event_points(events),
    decreases events.len(),
{
    if n < events.len() {
        assert(events.drop_last().take(n) =~= events.take(n));
        lemma_event_points_prefix_bound(events.drop_last(), n);
    } else {
        assert(events.take(n) =~= events);
    }
}

/// The score board text: the points scored so far, shown as "Score: N".
#[derive(Debug, Clone)]
pub struct ScoreBoard {
    score: u32,
}

impl ScoreBoard {
    pub closed spec fn points(&self) -> u32 {
        self.score
    }

    pub fn new() -> (b: ScoreBoard)
        ensures
            b.points() == 0,
    {
        ScoreBoard { score: 0 }
    }

    pub fn score(&self) -> (s: u32)
        ensures
            s == self.points(),
    {
        self.score
    }

    /// Adds the points awarded for one shot asteroid.
    pub fn add_points(&mut self, points: u32)
        requires
            old(self).points() + points <= u32::MAX,
        ensures
            final(self).points() == old(self).points() + points,
    {
        self.score = self.score + points;
    }

    /// The text the board displays.
    pub fn to_string(&self) -> (s: String)
        ensures
            s@ == caption(self.points()),
    {
        caption_string(self.score)
    }
}

} // verus!
