use vstd::prelude::*;
use vstd::string::*;

verus! {

/// A user's profile.
pub struct User {
    pub id: String,
    pub name: String,
    pub username: String,
    pub location: Option<String>,
    pub description: Option<String>,
}

/// A tweet of a timeline.
pub struct Tweet {
    pub id: String,
    pub text: String,
    pub author_id: String,
}

/// A copy of a text that may be absent.
fn copy_of(text: &Option<String>) -> (r: Option<String>)
    ensures
        r == *text,
{
    match text {
        Some(t) => Some(t.clone()),
        None => None,
    }
}

impl Clone for User {
    fn clone(&self) -> (r: User)
        ensures
            r == *self,
    {
        User {
            id: self.id.clone(),
            name: self.name.clone(),
            username: self.username.clone(),
            location: copy_of(&self.location),
            description: copy_of(&self.description),
        }
    }
}

/// `regex::Regex`, a compiled regular expression. Nothing of its inside is
/// known here; it is handed to [`is_match`] as it comes.
#[verifier::external_type_specification]
#[verifier::external_body]
pub struct ExRegex(regex::Regex);

/// The texts in which a regular expression finds a match.
pub uninterp spec fn matched_texts(pattern: regex::Regex) -> Set<Seq<char>>;

/// The lower-case form of a text.
pub uninterp spec fn lowercase_of(text: Seq<char>) -> Seq<char>;

/// Calls `regex::Regex::is_match`, which tells whether the expression
/// matches anywhere in the text.
#[verifier::external_body]
fn is_match(pattern: &regex::Regex, text: &str) -> (r: bool)
    ensures
        r == matched_texts(*pattern).contains(text@),
{
    pattern.is_match(text)
}

/// `str::to_lowercase` returns the lower-case equivalent of the text as a
/// new `String`.
pub assume_specification[ str::to_lowercase ](text: &str) -> (r: String)
    ensures
        r@ == lowercase_of(text@),
;

/// The user has a location, and the expression matches its lower-case form.
pub open spec fn lives_in(user: User, location: regex::Regex) -> bool {
    match user.location {
        Some(place) => matched_texts(location).contains(lowercase_of(place@)),
        None => false,
    }
}

/// The users whose location matches, in their order.
pub open spec fn users_in(users: Seq<User>, location: regex::Regex) -> Seq<User>
    decreases users.len(),
{
    if users.len() == 0 {
        Seq::empty()
    } else if lives_in(users.last(), location) {
        users_in(users.drop_last(), location).push(users.last())
    } else {
        users_in(users.drop_last(), location)
    }
}

/// Tells whether the user's location matches the expression. The location
/// is compared in lower case; a user without a location never matches.
pub fn in_location(user: &User, location: &regex::Regex) -> (r: bool)
    ensures
        r == lives_in(*user, *location),
{
    match &user.location {
        Some(place) => {
            let lower = place.as_str().to_lowercase();
            is_match(location, lower.as_str())
        },
        None => false,
    }
}

/// Picks the users whose location matches the expression, in their order.
pub fn users_in_location(followers: &Vec<User>, location: &regex::Regex) -> (r: Vec<User>)
    ensures
        r@ == users_in(followers@, *location),
{
    let mut found: Vec<User> = Vec::new();
    let mut i: usize = 0;
    while i < followers.len()
        invariant
            i <= followers@.len(),
            found@ == users_in(followers@.subrange(0, i as int), *location),
        decreases followers@.len() - i,
    {
        proof {
            let next = followers@.subrange(0, i + 1);
            assert(next.drop_last() == followers@.subrange(0, i as int));
            assert(next.last() == followers@[i as int]);
        }
        if in_location(&followers[i], location) {
            found.push(followers[i].clone());
        }
        i += 1;
    }
    proof {
        assert(followers@.subrange(0, i as int) == followers@);
    }
    found
}

/// Some user of the list has the id.
pub open spec fn has_id(users: Seq<User>, id: Seq<char>) -> bool {
    exists|i: int| 0 <= i < users.len() && (#[trigger] users[i]).id@ == id
}

/// Those of `users` whose id some user of `others` has, in their order.
pub open spec fn known_among(users: Seq<User>, others: Seq<User>) -> Seq<User>
    decreases users.len(),
{
    if users.len() == 0 {
        Seq::empty()
    } else if has_id(others, users.last().id@) {
        known_among(users.drop_last(), others).push(users.last())
    } else {
        known_among(users.drop_last(), others)
    }
}

/// Where the last user with the given id stands in the list, if there is
/// one.
pub fn index_of_id(users: &Vec<User>, id: &str) -> (r: Option<usize>)
    ensures
        match r {
            Some(i) => i < users@.len() && users@[i as int].id@ == id@ && forall|k: int|
                i < k < users@.len() ==> (#[trigger] users@[k]).id@ != id@,
            None => !has_id(users@, id@),
        },
{
    let wanted = id.to_owned();
    let mut i: usize = users.len();
    while i > 0
        invariant
            i <= users@.len(),
            wanted@ == id@,
            forall|k: int| i <= k < users@.len() ==> (#[trigger] users@[k]).id@ != id@,
        decreases i,
    {
        i -= 1;
        if users[i].id == wanted {
            return Some(i);
        }
    }
    None
}

/// The users that one follows and that follow one back: those of
/// `following` whose id is among `followers`, in the order of `following`.
pub fn mutual(followers: &Vec<User>, following: &Vec<User>) -> (r: Vec<User>)
    ensures
        r@ == known_among(following@, followers@),
{
    let mut both: Vec<User> = Vec::new();
    let mut i: usize = 0;
    while i < following.len()
        invariant
            i <= following@.len(),
            both@ == known_among(following@.subrange(0, i as int), followers@),
        decreases following@.len() - i,
    {
        proof {
            let next = following@.subrange(0, i + 1);
            assert(next.drop_last() == following@.subrange(0, i as int));
            assert(next.last() == following@[i as int]);
        }
        if index_of_id(followers, following[i].id.as_str()).is_some() {
            both.push(following[i].clone());
        }
        i += 1;
    }
    proof {
        assert(following@.subrange(0, i as int) == following@);
    }
    both
}

} // verus!
