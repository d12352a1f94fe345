//! Titles of wiki pages.
use crate::text::{decimal, decimal_text, digit, replaced, trimmed};
use vstd::prelude::*;
use vstd::string::*;

verus! {

/// `hash` of `i64` feeds the number to the hasher. Nothing is claimed of the
/// hasher's state then: what a hasher makes of a value is its own affair.
pub assume_specification<H: std::hash::Hasher>[ <i64 as std::hash::Hash>::hash::<H> ](
    n: &i64,
    state: &mut H,
)
;

/// `hash` of `str` feeds the text to the hasher. Nothing is claimed of the
/// hasher's state then: what a hasher makes of a value is its own affair.
pub assume_specification<H: std::hash::Hasher>[ <str as std::hash::Hash>::hash::<H> ](
    s: &str,
    state: &mut H,
)
;

/// The title of a page: the namespace it is in, and its name there, with
/// spaces in place of underscores.
#[derive(Debug)]
pub struct Title {
    namespace_id: i64,
    pretty: String,
}

impl View for Title {
    type V = (int, Seq<char>);

    closed spec fn view(&self) -> (int, Seq<char>) {
        (self.namespace_id as int, self.pretty@)
    }
}

/// The name of a page with spaces in place of underscores, and no white space
/// at its ends.
pub open spec fn pretty_name(name: Seq<char>) -> Seq<char> {
    trimmed(replaced(name, '_', ' '))
}

/// Calls `Title::new` of the `mediawiki` crate and hands out the title's
/// `pretty` name: the given one with its underscores turned into spaces, and
/// then without the white space around it. The namespace plays no part in it.
#[verifier::external_body]
fn pretty(name: &str, namespace_id: i64) -> (res: String)
    ensures
        res@ == pretty_name(name@),
{
    mediawiki::title::Title::new(name, namespace_id).pretty().to_string()
}

impl Title {
    /// A title from its name, with spaces or underscores, and its namespace.
    pub fn new(title: &str, namespace_id: i64) -> (res: Self)
        ensures
            res@ == (namespace_id as int, pretty_name(title@)),
    {
        Title { namespace_id, pretty: pretty(title, namespace_id) }
    }

    /// The number of the namespace.
    pub fn namespace_id(&self) -> (id: i64)
        ensures
            id == self@.0,
    {
        self.namespace_id
    }

    /// The name of the page, with spaces.
    pub fn pretty(&self) -> (name: &str)
        ensures
            name@ == self@.1,
    {
        self.pretty.as_str()
    }

    /// Tells whether two titles name the same page.
    pub fn same_as(&self, other: &Title) -> (yes: bool)
        ensures
            yes == (self@ == other@),
    {
        self.namespace_id == other.namespace_id && self.pretty.eq(&other.pretty)
    }

    /// The text under which the page is filed: the number of the namespace, a
    /// colon, and the name.
    pub fn key(&self) -> (key: String)
        ensures
            key@ == title_key(self@),
    {
        let mut key = String::new();
        if self.namespace_id < 0 {
            key.push('-');
            let size: u64 = (-(self.namespace_id as i128)) as u64;
            key.append(decimal_text(size).as_str());
        } else {
            key.append(decimal_text(self.namespace_id as u64).as_str());
        }
        key.push(':');
        key.append(self.pretty.as_str());
        key
    }
}

impl Clone for Title {
    fn clone(&self) -> (title: Self)
        ensures
            title@ == self@,
    {
        Title { namespace_id: self.namespace_id, pretty: self.pretty.clone() }
    }
}

/// A number with its sign, written in decimal.
pub open spec fn signed_decimal(n: int) -> Seq<char> {
    if n < 0 {
        seq!['-'] + decimal((-n) as nat)
    } else {
        decimal(n as nat)
    }
}

/// The text under which a page is filed.
pub open spec fn title_key(title: (int, Seq<char>)) -> Seq<char> {
    signed_decimal(title.0).push(':') + title.1
}

proof fn lemma_decimal_digits(n: nat)
    ensures
        decimal(n).len() > 0,
        forall|i: int| 0 <= i < decimal(n).len() ==> '0' <= #[trigger] decimal(n)[i] <= '9',
    decreases n,
{
    if n >= 10 {
        lemma_decimal_digits(n / 10);
    }
}

proof fn lemma_decimal_injective(a: nat, b: nat)
    requires
        decimal(a) == decimal(b),
    ensures
        a == b,
    decreases a,
{
    lemma_decimal_digits(a / 10);
    lemma_decimal_digits(b / 10);
    assert(decimal(a).last() == digit(a % 10));
    assert(decimal(b).last() == digit(b % 10));
    if a < 10 {
        assert(decimal(b).len() == 1);
    } else {
        assert(decimal(a).len() > 1);
        assert(b >= 10);
        assert(decimal(a).drop_last() =~= decimal(a / 10));
        assert(decimal(b).drop_last() =~= decimal(b / 10));
        lemma_decimal_injective(a / 10, b / 10);
    }
}

proof fn lemma_signed_decimal(n: int)
    ensures
        signed_decimal(n).len() > 0,
        forall|i: int| 0 <= i < signed_decimal(n).len() ==> #[trigger] signed_decimal(n)[i] != ':',
        n < 0 <==> signed_decimal(n)[0] == '-',
{
    if n < 0 {
        lemma_decimal_digits((-n) as nat);
    } else {
        lemma_decimal_digits(n as nat);
    }
}

proof fn lemma_signed_decimal_injective(a: int, b: int)
    requires
        signed_decimal(a) == signed_decimal(b),
    ensures
        a == b,
{
    lemma_signed_decimal(a);
    lemma_signed_decimal(b);
    if a < 0 {
        assert(signed_decimal(a).drop_first() =~= decimal((-a) as nat));
        assert(signed_decimal(b).drop_first() =~= decimal((-b) as nat));
        lemma_decimal_injective((-a) as nat, (-b) as nat);
    } else {
        lemma_decimal_injective(a as nat, b as nat);
    }
}

/// Two titles are filed under one text exactly if they name the same page.
pub proof fn title_key_injective(a: (int, Seq<char>), b: (int, Seq<char>))
    ensures
        title_key(a) == title_key(b) <==> a == b,
{
    if title_key(a) == title_key(b) {
        let sa = signed_decimal(a.0);
        let sb = signed_decimal(b.0);
        lemma_signed_decimal(a.0);
        lemma_signed_decimal(b.0);
        assert(title_key(a)[sa.len() as int] == ':');
        assert(title_key(b)[sb.len() as int] == ':');
        if sa.len() < sb.len() {
            assert(title_key(b)[sa.len() as int] == sb[sa.len() as int]);
        }
        if sb.len() < sa.len() {
            assert(title_key(a)[sb.len() as int] == sa[sb.len() as int]);
        }
        assert(title_key(a).take(sa.len() as int) =~= sa);
        assert(title_key(b).take(sb.len() as int) =~= sb);
        lemma_signed_decimal_injective(a.0, b.0);
        assert(title_key(a).skip(sa.len() as int + 1) =~= a.1);
        assert(title_key(b).skip(sb.len() as int + 1) =~= b.1);
    }
}

} // verus!
