use vstd::prelude::*;

verus! {

/// The name of the universe type that a complexity tier stands for.
pub open spec fn universe_type_name(level: u8) -> Seq<char> {
    if level == 0 {
        "Estéril"@
    } else if level == 1 {
        "Químico"@
    } else if level == 2 {
        "Nuclear"@
    } else if level == 3 {
        "Estelar"@
    } else if level == 4 {
        "Complejo"@
    } else if level == 5 {
        "Reproductivo"@
    } else {
        "Trascendente"@
    }
}

/// Names the universe type of a complexity tier; tiers past the top share one name.
pub fn analyze_universe_type(level: u8) -> (r: &'static str)
    ensures
        r@ == universe_type_name(level),
{
    match level {
        0 => "Estéril",
        1 => "Químico",
        2 => "Nuclear",
        3 => "Estelar",
        4 => "Complejo",
        5 => "Reproductivo",
        _ => "Trascendente",
    }
}

/// The closing chapter of a universe's story at a complexity tier.
pub open spec fn finale_name(level: u8) -> Seq<char> {
    if level == 0 {
        "Stillborn Silence"@
    } else if level == 1 {
        "Chemical Whispers"@
    } else if level == 2 {
        "Nuclear Fire"@
    } else if level == 3 {
        "Stellar Symphony"@
    } else if level == 4 {
        "Complex Choreography"@
    } else if level == 5 {
        "Reproductive Renaissance"@
    } else {
        "Unknown Epic"@
    }
}

/// Names the closing chapter of a universe's story at a complexity tier.
pub fn finale_type(level: u8) -> (r: &'static str)
    ensures
        r@ == finale_name(level),
{
    match level {
        0 => "Stillborn Silence",
        1 => "Chemical Whispers",
        2 => "Nuclear Fire",
        3 => "Stellar Symphony",
        4 => "Complex Choreography",
        5 => "Reproductive Renaissance",
        _ => "Unknown Epic",
    }
}

/// Genres are numbered by tier; every tier past the top shares the last one.
pub open spec fn genre_index(depth: u8) -> int {
    if depth <= 5 { depth as int } else { 6 }
}

/// The number of genres.
pub const GENRE_COUNT: usize = 7;

/// The name of genre `g`.
pub open spec fn genre_title(g: int) -> Seq<char> {
    if g == 0 {
        "Cosmic Horror"@
    } else if g == 1 {
        "Minimalist Drama"@
    } else if g == 2 {
        "Nuclear Thriller"@
    } else if g == 3 {
        "Space Opera"@
    } else if g == 4 {
        "Epic Fantasy"@
    } else if g == 5 {
        "Reproductive Romance"@
    } else {
        "Experimental Fiction"@
    }
}

/// Names genre `g`.
pub fn genre_name(g: usize) -> (r: &'static str)
    requires
        g < GENRE_COUNT,
    ensures
        r@ == genre_title(g as int),
{
    match g {
        0 => "Cosmic Horror",
        1 => "Minimalist Drama",
        2 => "Nuclear Thriller",
        3 => "Space Opera",
        4 => "Epic Fantasy",
        5 => "Reproductive Romance",
        _ => "Experimental Fiction",
    }
}

/// The genre of a story that reached the given depth.
pub fn genre_of(depth: u8) -> (r: usize)
    ensures
        r == genre_index(depth),
        r < GENRE_COUNT,
{
    if depth <= 5 {
        depth as usize
    } else {
        6
    }
}

/// The alpha denominators, in order, of the books of genre `g` among the first `n`.
pub open spec fn genre_books(books: Seq<(u32, u8)>, g: int, n: int) -> Seq<u32>
    decreases n,
{
    if n <= 0 {
        Seq::empty()
    } else {
        let rest = genre_books(books, g, n - 1);
        if genre_index(books[n - 1].1) == g {
            rest.push(books[n - 1].0)
        } else {
            rest
        }
    }
}

/// Sorts books, each an alpha denominator with the depth its story reached, into
/// genres: entry `g` holds the denominators of genre `g`, in the order given.
pub fn classify_genres(books: &Vec<(u32, u8)>) -> (r: Vec<Vec<u32>>)
    ensures
        r@.len() == GENRE_COUNT,
        forall|g: int|
            0 <= g < GENRE_COUNT ==> (#[trigger] r@[g])@ == genre_books(books@, g, books@.len() as int),
{
    let mut r: Vec<Vec<u32>> = Vec::new();
    let mut g: usize = 0;
    while g < GENRE_COUNT
        invariant
            g <= GENRE_COUNT,
            r@.len() == g,
            forall|h: int| 0 <= h < g ==> (#[trigger] r@[h])@ == genre_books(books@, h, books@.len() as int),
        decreases GENRE_COUNT - g,
    {
        let mut bucket: Vec<u32> = Vec::new();
        let mut k: usize = 0;
        while k < books.len()
            invariant
                k <= books@.len(),
                g < GENRE_COUNT,
                bucket@ == genre_books(books@, g as int, k as int),
            decreases books@.len() - k,
        {
            let (denominator, depth) = books[k];
            if genre_of(depth) == g {
                bucket.push(denominator);
            }
            k += 1;
        }
        r.push(bucket);
        g += 1;
    }
    r
}

/// The milestones of a story: great nucleosynthesis, the age of stars, the
/// chemical revolution and the portal makers, each present when its flag is set.
pub open spec fn milestone_names(nucleosynthesis: bool, stars: bool, chemistry: bool, black_holes: bool) -> Seq<
    Seq<char>,
> {
    let a = if nucleosynthesis { seq!["The Great Nucleosynthesis"@] } else { Seq::empty() };
    let b = if stars { seq!["The Age of Stars Begins"@] } else { Seq::empty() };
    let c = if chemistry { seq!["The Chemical Revolution"@] } else { Seq::empty() };
    let d = if black_holes { seq!["The Portal Makers Awaken"@] } else { Seq::empty() };
    a + b + c + d
}

/// Lists the milestones of a story, in the order in which they happen.
pub fn dramatic_events(nucleosynthesis: bool, stars: bool, chemistry: bool, black_holes: bool) -> (r: Vec<
    &'static str,
>)
    ensures
        r@.map_values(|s: &'static str| s@) == milestone_names(nucleosynthesis, stars, chemistry, black_holes),
{
    let mut r: Vec<&'static str> = Vec::new();
    if nucleosynthesis {
        r.push("The Great Nucleosynthesis");
    }
    if stars {
        r.push("The Age of Stars Begins");
    }
    if chemistry {
        r.push("The Chemical Revolution");
    }
    if black_holes {
        r.push("The Portal Makers Awaken");
    }
    assert(r@.map_values(|s: &'static str| s@) =~= milestone_names(nucleosynthesis, stars, chemistry, black_holes));
    r
}

} // verus!
