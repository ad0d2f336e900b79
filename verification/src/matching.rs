//! The match rule: a set of marked tiles wins when, for colour and for shape
//! independently, the tiles are all alike or all different.

use crate::attribute::Color;
use crate::attribute::Shape;
use vstd::prelude::*;

verus! {

/// The least number of marked tiles that can form a match.
pub const MATCH_SIZE: usize = 3;

/// How many different values occur in `s`.
pub open spec fn distinct<A>(s: Seq<A>) -> nat {
    s.to_set().len()
}

/// All different, or all the same: the number of different values is the
/// length, or it is one.
pub open spec fn uniform<A>(s: Seq<A>) -> bool {
    distinct(s) == s.len() || distinct(s) == 1
}

/// Every entry of `s` equals every other.
pub open spec fn all_same<A>(s: Seq<A>) -> bool {
    forall|i: int, j: int| 0 <= i < s.len() && 0 <= j < s.len() ==> s[i] == s[j]
}

/// The match rule over the colours and the shapes of the marked tiles.
pub open spec fn match_rule(colors: Seq<Color>, shapes: Seq<Shape>) -> bool {
    colors.len() >= MATCH_SIZE && uniform(colors) && uniform(shapes)
}

/// One for what is present, nothing for what is not.
pub open spec fn one_if(present: bool) -> nat {
    if present {
        1
    } else {
        0
    }
}

/// A sequence drawn from three different values has as many different
/// values as of those three occur in it.
pub proof fn lemma_distinct_of_three<A>(s: Seq<A>, a: A, b: A, c: A)
    requires
        a != b,
        a != c,
        b != c,
        forall|i: int| 0 <= i < s.len() ==> s[i] == a || s[i] == b || s[i] == c,
    ensures
        distinct(s) == one_if(s.contains(a)) + one_if(s.contains(b)) + one_if(s.contains(c)),
{
    let t0 = Set::<A>::empty();
    let t1 = if s.contains(a) { t0.insert(a) } else { t0 };
    let t2 = if s.contains(b) { t1.insert(b) } else { t1 };
    let t3 = if s.contains(c) { t2.insert(c) } else { t2 };
    assert(s.to_set() =~= t3);
}

/// The rule on counts says what its name promises: a sequence is uniform
/// exactly when no value occurs twice or every entry is the same. The count
/// is the length when no value occurs twice, and in a sequence that is not
/// empty it is one when every entry is the same.
pub proof fn lemma_uniform_means<A>(s: Seq<A>)
    ensures
        distinct(s) == s.len() <==> s.no_duplicates(),
        s.len() >= 1 ==> (distinct(s) == 1 <==> all_same(s)),
        uniform(s) <==> s.no_duplicates() || all_same(s),
{
    broadcast use vstd::seq_lib::seq_to_set_is_finite;
    if s.no_duplicates() {
        s.unique_seq_to_set();
    }
    if distinct(s) == s.len() {
        s.lemma_no_dup_set_cardinality();
    }
    if s.len() >= 1 {
        if all_same(s) {
            assert(s.to_set() =~= Set::empty().insert(s[0]));
        }
        if distinct(s) == 1 {
            assert forall|i: int, j: int| 0 <= i < s.len() && 0 <= j < s.len() implies s[i] == s[j] by {
                if s[i] != s[j] {
                    assert(s.to_set().contains(s[i]));
                    assert(s.to_set().contains(s[j]));
                    assert(s.to_set().remove(s[i]).contains(s[j]));
                }
            }
        }
    }
}

/// The match rule in words: at least three tiles, whose colours are all
/// different or all the same, and whose shapes are all different or all the
/// same.
pub proof fn lemma_match_rule_means(colors: Seq<Color>, shapes: Seq<Shape>)
    ensures
        match_rule(colors, shapes) <==> {
            &&& colors.len() >= MATCH_SIZE
            &&& colors.no_duplicates() || all_same(colors)
            &&& shapes.no_duplicates() || all_same(shapes)
        },
        colors.len() < MATCH_SIZE ==> !match_rule(colors, shapes),
{
    lemma_uniform_means(colors);
    lemma_uniform_means(shapes);
}

fn count(present: bool) -> (n: usize)
    ensures
        n == one_if(present),
{
    if present {
        1
    } else {
        0
    }
}

/// Counts the different colours in `colors`.
pub fn distinct_colors(colors: &Vec<Color>) -> (n: usize)
    ensures
        n == distinct(colors@),
{
    let mut blue = false;
    let mut red = false;
    let mut yellow = false;
    let mut i: usize = 0;
    while i < colors.len()
        invariant
            i <= colors.len(),
            blue <==> colors@.take(i as int).contains(Color::Blue),
            red <==> colors@.take(i as int).contains(Color::Red),
            yellow <==> colors@.take(i as int).contains(Color::Yellow),
        decreases colors.len() - i,
    {
        proof {
            let before = colors@.take(i as int);
            let after = colors@.take(i + 1);
            assert(after =~= before.push(colors@[i as int]));
            assert(after.last() == colors@[i as int]);
            assert forall|c: Color| after.contains(c) <==> before.contains(c) || c == colors@[i as int] by {
                if before.contains(c) {
                    let j = choose|j: int| 0 <= j < before.len() && before[j] == c;
                    assert(after[j] == c);
                }
                if c == colors@[i as int] {
                    assert(after[i as int] == c);
                }
            }
        }
        match colors[i] {
            Color::Blue => {
                blue = true;
            },
            Color::Red => {
                red = true;
            },
            Color::Yellow => {
                yellow = true;
            },
        }
        i += 1;
    }
    proof {
        assert(colors@.take(i as int) =~= colors@);
        lemma_distinct_of_three(colors@, Color::Blue, Color::Red, Color::Yellow);
    }
    count(blue) + count(red) + count(yellow)
}

/// Counts the different shapes in `shapes`.
pub fn distinct_shapes(shapes: &Vec<Shape>) -> (n: usize)
    ensures
        n == distinct(shapes@),
{
    let mut diamond = false;
    let mut circle = false;
    let mut triangle = false;
    let mut i: usize = 0;
    while i < shapes.len()
        invariant
            i <= shapes.len(),
            diamond <==> shapes@.take(i as int).contains(Shape::Diamond),
            circle <==> shapes@.take(i as int).contains(Shape::Circle),
            triangle <==> shapes@.take(i as int).contains(Shape::Triangle),
        decreases shapes.len() - i,
    {
        proof {
            let before = shapes@.take(i as int);
            let after = shapes@.take(i + 1);
            assert(after =~= before.push(shapes@[i as int]));
            assert(after.last() == shapes@[i as int]);
            assert forall|c: Shape| after.contains(c) <==> before.contains(c) || c == shapes@[i as int] by {
                if before.contains(c) {
                    let j = choose|j: int| 0 <= j < before.len() && before[j] == c;
                    assert(after[j] == c);
                }
                if c == shapes@[i as int] {
                    assert(after[i as int] == c);
                }
            }
        }
        match shapes[i] {
            Shape::Diamond => {
                diamond = true;
            },
            Shape::Circle => {
                circle = true;
            },
            Shape::Triangle => {
                triangle = true;
            },
        }
        i += 1;
    }
    proof {
        assert(shapes@.take(i as int) =~= shapes@);
        lemma_distinct_of_three(shapes@, Shape::Diamond, Shape::Circle, Shape::Triangle);
    }
    count(diamond) + count(circle) + count(triangle)
}

/// Decides the match rule for the colours and shapes of the marked tiles.
pub fn is_match(colors: &Vec<Color>, shapes: &Vec<Shape>) -> (won: bool)
    ensures
        won == match_rule(colors@, shapes@),
{
    if colors.len() < MATCH_SIZE {
        return false;
    }
    let unique_colors = distinct_colors(colors);
    let color_match = colors.len() == unique_colors || unique_colors == 1;
    let unique_shapes = distinct_shapes(shapes);
    let shape_match = shapes.len() == unique_shapes || unique_shapes == 1;
    shape_match && color_match
}

} // verus!
