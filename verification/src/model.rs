//! Entities of the catalog and their identifiers.

use url::Url;
use uuid::Uuid;
use vstd::prelude::*;

verus! {

/// Whether the 128 bits carry the version and variant marks of a random
/// (version 4) UUID: the version nibble is 4 and the variant bits are `10`.
pub open spec fn is_random_uuid(bits: u128) -> bool {
    bits & 0x0000_0000_0000_f000_c000_0000_0000_0000u128
        == 0x0000_0000_0000_4000_8000_0000_0000_0000u128
}

/// Calls `uuid::Uuid::new_v4` and hands the UUID back as the number that
/// `Uuid::as_u128` gives for it. The UUID is drawn at random, so the contract
/// states only what `new_v4` fixes in every outcome: the version and variant
/// marks in its bits.
#[verifier::external_body]
fn random_uuid_bits() -> (bits: u128)
    ensures
        is_random_uuid(bits),
{
    Uuid::new_v4().as_u128()
}

/// What `url::Url::parse` makes of the text: the serialization of the URL
/// that it parses to, or nothing where it does not parse.
pub uninterp spec fn url_serialization(input: Seq<char>) -> Option<Seq<char>>;

/// Calls `url::Url::parse` and hands the URL back as its serialization, the
/// `String` that `From<Url>` makes of it. The parser reads nothing but its
/// argument, so its result is a function of the text; the contract gives that
/// function a name and says nothing of its value.
#[verifier::external_body]
fn parse_url(input: &str) -> (serialization: Option<String>)
    ensures
        match serialization {
            Some(text) => url_serialization(input@) == Some(text@),
            None => url_serialization(input@) is None,
        },
{
    match Url::parse(input) {
        Ok(url) => Some(String::from(url)),
        Err(_) => None,
    }
}

/// The text is the serialization of a URL that some text parses to.
pub open spec fn is_serialization(text: Seq<char>) -> bool {
    exists|input: Seq<char>| url_serialization(input) == Some(text)
}

/// The address of a website: a URL that has been parsed, held as its
/// serialization.
pub struct WebsiteUrl {
    serialization: String,
}

impl View for WebsiteUrl {
    type V = Seq<char>;

    closed spec fn view(&self) -> Seq<char> {
        self.serialization@
    }
}

impl WebsiteUrl {
    /// The address is the serialization of a URL that some text parsed to.
    #[verifier::type_invariant]
    closed spec fn parsed(self) -> bool {
        is_serialization(self.serialization@)
    }

    /// The address that the text parses to; none where it does not parse as
    /// a URL.
    pub fn parse(input: &str) -> (parsed: Option<WebsiteUrl>)
        ensures
            match parsed {
                Some(url) => url_serialization(input@) == Some(url@),
                None => url_serialization(input@) is None,
            },
    {
        match parse_url(input) {
            Some(serialization) => Some(WebsiteUrl { serialization }),
            None => None,
        }
    }

    /// The serialization of the address.
    pub fn as_str(&self) -> (text: &str)
        ensures
            text@ == self@,
            is_serialization(text@),
    {
        proof {
            use_type_invariant(self);
        }
        self.serialization.as_str()
    }
}

impl Clone for WebsiteUrl {
    fn clone(&self) -> (copy: Self)
        ensures
            copy == *self,
    {
        proof {
            use_type_invariant(self);
        }
        WebsiteUrl { serialization: self.serialization.clone() }
    }
}

/// Identifier of a category: 128 bits, never interchangeable with a
/// [`RestaurantId`].
#[derive(Copy, Clone, PartialEq, Eq, Structural, Hash, Debug)]
pub struct CategoryId(u128);

/// Identifier of a restaurant: 128 bits, never interchangeable with a
/// [`CategoryId`].
#[derive(Copy, Clone, PartialEq, Eq, Structural, Hash, Debug)]
pub struct RestaurantId(u128);

impl From<u128> for CategoryId {
    fn from(bits: u128) -> (id: Self) {
        CategoryId(bits)
    }
}

impl vstd::std_specs::convert::FromSpecImpl<u128> for CategoryId {
    open spec fn obeys_from_spec() -> bool {
        true
    }

    closed spec fn from_spec(bits: u128) -> Self {
        CategoryId(bits)
    }
}

impl From<u128> for RestaurantId {
    fn from(bits: u128) -> (id: Self) {
        RestaurantId(bits)
    }
}

impl vstd::std_specs::convert::FromSpecImpl<u128> for RestaurantId {
    open spec fn obeys_from_spec() -> bool {
        true
    }

    closed spec fn from_spec(bits: u128) -> Self {
        RestaurantId(bits)
    }
}

impl CategoryId {
    /// The identifier made from a number has the bits of the number.
    pub proof fn lemma_from_bits(bits: u128)
        ensures
            <CategoryId as vstd::std_specs::convert::FromSpec<u128>>::from_spec(bits).value() == bits,
    {
    }

    /// The 128 bits of the identifier.
    pub closed spec fn value(self) -> u128 {
        self.0
    }

    /// Two identifiers are the same exactly when their bits are.
    pub proof fn lemma_value_injective(a: CategoryId, b: CategoryId)
        ensures
            a.value() == b.value() <==> a == b,
    {
    }

    /// A fresh random identifier.
    pub fn new() -> (id: Self)
        ensures
            is_random_uuid(id.value()),
    {
        CategoryId(random_uuid_bits())
    }

    /// The identifier with the given bits.
    pub fn from_u128(bits: u128) -> (id: Self)
        ensures
            id.value() == bits,
    {
        CategoryId(bits)
    }

    /// The bits of the identifier.
    pub fn as_u128(&self) -> (bits: u128)
        ensures
            bits == self.value(),
    {
        self.0
    }
}

impl RestaurantId {
    /// The identifier made from a number has the bits of the number.
    pub proof fn lemma_from_bits(bits: u128)
        ensures
            <RestaurantId as vstd::std_specs::convert::FromSpec<u128>>::from_spec(bits).value() == bits,
    {
    }

    /// The 128 bits of the identifier.
    pub closed spec fn value(self) -> u128 {
        self.0
    }

    /// Two identifiers are the same exactly when their bits are.
    pub proof fn lemma_value_injective(a: RestaurantId, b: RestaurantId)
        ensures
            a.value() == b.value() <==> a == b,
    {
    }

    /// A fresh random identifier.
    pub fn new() -> (id: Self)
        ensures
            is_random_uuid(id.value()),
    {
        RestaurantId(random_uuid_bits())
    }

    /// The identifier with the given bits.
    pub fn from_u128(bits: u128) -> (id: Self)
        ensures
            id.value() == bits,
    {
        RestaurantId(bits)
    }

    /// The bits of the identifier.
    pub fn as_u128(&self) -> (bits: u128)
        ensures
            bits == self.value(),
    {
        self.0
    }
}

/// A category of restaurants.
pub struct Category {
    pub id: CategoryId,
    pub name: String,
}

/// The value of a [`Category`].
pub struct CategoryView {
    pub id: CategoryId,
    pub name: Seq<char>,
}

impl View for Category {
    type V = CategoryView;

    open spec fn view(&self) -> CategoryView {
        CategoryView { id: self.id, name: self.name@ }
    }
}

impl Category {
    /// A category with the given name and a fresh random identifier.
    pub fn new(name: &str) -> (category: Self)
        ensures
            category.name@ == name@,
            is_random_uuid(category.id.value()),
    {
        Category { id: CategoryId::new(), name: name.to_owned() }
    }
}

impl Clone for Category {
    fn clone(&self) -> (copy: Self)
        ensures
            copy == *self,
    {
        Category { id: self.id, name: self.name.clone() }
    }
}

/// A restaurant; it belongs to exactly one category.
pub struct Restaurant {
    pub id: RestaurantId,
    pub name: String,
    pub category_id: CategoryId,
    pub website_url: WebsiteUrl,
    pub source: Option<String>,
}

/// The value of a [`Restaurant`].
pub struct RestaurantView {
    pub id: RestaurantId,
    pub name: Seq<char>,
    pub category_id: CategoryId,
    pub website_url: Seq<char>,
    pub source: Option<Seq<char>>,
}

impl View for Restaurant {
    type V = RestaurantView;

    open spec fn view(&self) -> RestaurantView {
        RestaurantView {
            id: self.id,
            name: self.name@,
            category_id: self.category_id,
            website_url: self.website_url@,
            source: match self.source {
                Some(text) => Some(text@),
                None => None,
            },
        }
    }
}

impl Restaurant {
    /// A restaurant with the given name, category and website, a fresh random
    /// identifier, and no source.
    pub fn new(name: &str, category_id: CategoryId, website_url: WebsiteUrl) -> (restaurant:
        Self)
        ensures
            restaurant.name@ == name@,
            restaurant.category_id == category_id,
            restaurant.website_url == website_url,
            restaurant.source is None,
            is_random_uuid(restaurant.id.value()),
    {
        Restaurant {
            id: RestaurantId::new(),
            name: name.to_owned(),
            category_id,
            website_url,
            source: None,
        }
    }
}

impl Clone for Restaurant {
    fn clone(&self) -> (copy: Self)
        ensures
            copy == *self,
    {
        let source = match &self.source {
            Some(text) => Some(text.clone()),
            None => None,
        };
        Restaurant {
            id: self.id,
            name: self.name.clone(),
            category_id: self.category_id,
            website_url: self.website_url.clone(),
            source,
        }
    }
}

} // verus!
