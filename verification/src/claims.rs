use crate::b64::{base64_fits, base64_text, decode_text, decoded_text, encode_text};
use crate::err::{outcome, Failure, JWTError};
use crate::ident::{is_uuid_text, random_uuid};
use crate::json::{
    empty_object, json_object_outcome, json_value_text, members_view, parse_object,
    value_to_text,
};
use crate::text::{has_char, same_text};
use crate::traits::JsonSerializable;
use crate::uri::{parse_uri, text_outcome, uri_outcome};
use serde_json::Value;
use vstd::prelude::*;
use vstd::string::{StrSliceExecFns, StringExecFns};
use vstd::utf8::encode_utf8;

verus! {

/// A claim name. A name without a colon is any text; a name with a colon
/// is a URI, held in the form in which the URI parser writes it back.
#[derive(Debug)]
pub enum StringOrURI {
    String(String),
    URI(String),
}

/// A claim name as a mathematical value.
pub enum Name {
    Plain(Seq<char>),
    Uri(Seq<char>),
}

impl Name {
    /// The text of a name, whatever its form.
    pub open spec fn text(self) -> Seq<char> {
        match self {
            Name::Plain(text) => text,
            Name::Uri(text) => text,
        }
    }

    /// A name with its form: `String(..)` or `URI(..)` around the text.
    pub open spec fn description(self) -> Seq<char> {
        match self {
            Name::Plain(text) => "String("@ + text + ")"@,
            Name::Uri(text) => "URI("@ + text + ")"@,
        }
    }
}

impl View for StringOrURI {
    type V = Name;

    open spec fn view(&self) -> Name {
        match self {
            StringOrURI::String(text) => Name::Plain(text@),
            StringOrURI::URI(text) => Name::Uri(text@),
        }
    }
}

/// The name that the outcome of parsing a URI stands for: the URI as it was
/// written back, or a parse failure that carries the parser's message.
pub open spec fn name_of_uri(parsed: Result<Seq<char>, Seq<char>>) -> Result<Name, Failure> {
    match parsed {
        Ok(canonical) => Ok(Name::Uri(canonical)),
        Err(cause) => Err(Failure::Parse(cause)),
    }
}

/// The name that a text stands for. Without a colon the text is a plain
/// name as it is; with one it has to be a URI.
pub open spec fn parse_name(text: Seq<char>) -> Result<Name, Failure> {
    if text.contains(':') {
        name_of_uri(uri_outcome(text))
    } else {
        Ok(Name::Plain(text))
    }
}

impl StringOrURI {
    /// The empty plain name.
    pub fn new_string() -> (name: StringOrURI)
        ensures
            name@ == Name::Plain(Seq::<char>::empty()),
    {
        StringOrURI::String(String::new())
    }

    /// The URI name `foo:bar`, about the shortest text that is a URI.
    pub fn new_uri() -> (name: StringOrURI)
        ensures
            name@ == Name::Uri("foo:bar"@),
    {
        StringOrURI::URI(String::from_str("foo:bar"))
    }

    /// The name that the outcome of parsing a URI stands for.
    pub fn from_uri_outcome(parsed: Result<String, String>) -> (r: Result<StringOrURI, JWTError>)
        ensures
            outcome(r) == name_of_uri(text_outcome(parsed)),
    {
        match parsed {
            Ok(canonical) => Ok(StringOrURI::URI(canonical)),
            Err(cause) => Err(JWTError::ParseError(cause)),
        }
    }

    /// Reads a name. A text without a colon is always a plain name. A text
    /// with a colon is handed to the URI parser, and is a URI name in the
    /// parser's own spelling, or a parse error with the parser's message.
    pub fn parse(inp: String) -> (r: Result<StringOrURI, JWTError>)
        ensures
            outcome(r) == parse_name(inp@),
    {
        if has_char(inp.as_str(), ':') {
            StringOrURI::from_uri_outcome(parse_uri(inp.as_str()))
        } else {
            Ok(StringOrURI::String(inp))
        }
    }

    /// The text of the name.
    pub fn as_str(&self) -> (text: &str)
        ensures
            text@ == self@.text(),
    {
        match self {
            StringOrURI::String(value) => value.as_str(),
            StringOrURI::URI(value) => value.as_str(),
        }
    }

    /// The name with its form: `String(..)` or `URI(..)` around the text.
    pub fn describe(&self) -> (out: String)
        ensures
            out@ == self@.description(),
    {
        let mut out = match self {
            StringOrURI::String(_) => String::from_str("String("),
            StringOrURI::URI(_) => String::from_str("URI("),
        };
        out.append(self.as_str());
        out.append(")");
        out
    }
}

/// The kind of a claim: registered with IANA, public (its name resists
/// collisions), or private.
#[derive(Debug, Clone, Copy, PartialEq, Eq, Structural)]
pub enum ClaimType {
    Registered,
    Public,
    Private,
}

/// Whether a text is one of the registered claim names.
pub open spec fn is_registered(text: Seq<char>) -> bool {
    ||| text == "iss"@
    ||| text == "sub"@
    ||| text == "aud"@
    ||| text == "exp"@
    ||| text == "nbf"@
    ||| text == "iat"@
    ||| text == "jti"@
}

/// The kind that a name gives a claim: a URI is public, a registered plain
/// name is registered, any other plain name is private.
pub open spec fn classify(name: Name) -> ClaimType {
    match name {
        Name::Uri(_) => ClaimType::Public,
        Name::Plain(text) => if is_registered(text) {
            ClaimType::Registered
        } else {
            ClaimType::Private
        },
    }
}

/// Whether a text is one of the registered claim names.
pub fn is_registered_name(text: &str) -> (registered: bool)
    ensures
        registered == is_registered(text@),
{
    same_text(text, "iss") || same_text(text, "sub") || same_text(text, "aud") || same_text(
        text,
        "exp",
    ) || same_text(text, "nbf") || same_text(text, "iat") || same_text(text, "jti")
}

/// A claim: a name, a JSON value, and the kind of claim it is.
#[derive(Debug)]
pub struct Claim {
    pub claim_type: ClaimType,
    pub claim_name: StringOrURI,
    pub claim_value: Value,
}

/// A claim as a mathematical value.
pub struct ClaimView {
    pub kind: ClaimType,
    pub name: Name,
    pub value: Value,
}

impl View for Claim {
    type V = ClaimView;

    open spec fn view(&self) -> ClaimView {
        ClaimView { kind: self.claim_type, name: self.claim_name@, value: self.claim_value }
    }
}

/// The claim that a name text and a value stand for: the name is parsed,
/// the kind follows from the name, the value is kept as it is.
pub open spec fn parse_claim(name: Seq<char>, value: Value) -> Result<ClaimView, Failure> {
    match parse_name(name) {
        Ok(name) => Ok(ClaimView { kind: classify(name), name, value }),
        Err(failure) => Err(failure),
    }
}

/// The JSON object that holds one claim and nothing else.
pub open spec fn fragment(claim: ClaimView) -> Seq<char> {
    "{\""@ + claim.name.text() + "\":"@ + json_value_text(claim.value) + "}"@
}

impl Claim {
    /// A private claim with the empty name, whose value is the empty JSON
    /// object.
    pub fn new() -> (claim: Claim)
        ensures
            claim@.kind == ClaimType::Private,
            claim@.name == Name::Plain(Seq::<char>::empty()),
            json_value_text(claim@.value) == "{}"@,
    {
        Claim {
            claim_type: ClaimType::Private,
            claim_name: StringOrURI::new_string(),
            claim_value: empty_object(),
        }
    }

    /// The kind that a name gives a claim.
    pub fn get_claim_type(claim_name: &StringOrURI) -> (kind: ClaimType)
        ensures
            kind == classify(claim_name@),
    {
        match claim_name {
            StringOrURI::URI(_) => ClaimType::Public,
            StringOrURI::String(text) => {
                if is_registered_name(text.as_str()) {
                    ClaimType::Registered
                } else {
                    ClaimType::Private
                }
            },
        }
    }

    /// Makes a claim of a name text and a value. It fails where the name
    /// does, with the name's error.
    pub fn parse(claim_name: String, claim_value: Value) -> (r: Result<Claim, JWTError>)
        ensures
            outcome(r) == parse_claim(claim_name@, claim_value),
    {
        match StringOrURI::parse(claim_name) {
            Ok(name) => {
                let kind = Claim::get_claim_type(&name);
                Ok(Claim { claim_type: kind, claim_name: name, claim_value })
            },
            Err(error) => Err(error),
        }
    }

    /// The claim as a JSON object of its own: `{"name":value}`, the value
    /// in compact JSON.
    pub fn encode_str(&self) -> (out: String)
        ensures
            out@ == fragment(self@),
    {
        let mut out = String::from_str("{\"");
        out.append(self.claim_name.as_str());
        out.append("\":");
        out.append(value_to_text(&self.claim_value).as_str());
        out.append("}");
        out
    }

    /// Declares the claim public, whatever its name.
    pub fn mark_public(&mut self)
        ensures
            final(self)@ == (ClaimView { kind: ClaimType::Public, ..old(self)@ }),
    {
        self.claim_type = ClaimType::Public;
    }
}

/// The name that a UUID and a fragment make: the UUID, a hyphen, the
/// fragment.
pub open spec fn collision_name_text(uuid: Seq<char>, fragment: Seq<char>) -> Seq<char> {
    uuid + "-"@ + fragment
}

/// Joins a UUID and a fragment to a name.
pub fn collision_name(uuid: &str, fragment: &str) -> (name: String)
    ensures
        name@ == collision_name_text(uuid@, fragment@),
{
    let mut name = String::from_str(uuid);
    name.append("-");
    name.append(fragment);
    name
}

/// Makes a name that resists collisions: a fresh random UUID, a hyphen,
/// and the fragment. Each call draws a new UUID.
pub fn generate_collision_name(fragment: &str) -> (name: String)
    ensures
        is_uuid_text(name@.take(36)),
        name@ == collision_name_text(name@.take(36), fragment@),
{
    let uuid = random_uuid();
    let name = collision_name(uuid.as_str(), fragment);
    proof {
        assert(name@.take(36) =~= uuid@);
    }
    name
}

/// Whether one of the claims has the given name text.
pub open spec fn has_name(claims: Seq<ClaimView>, text: Seq<char>) -> bool {
    exists|i: int| 0 <= i < claims.len() && #[trigger] claims[i].name.text() == text
}

/// Whether no two of the claims have the same name text.
pub open spec fn distinct_names(claims: Seq<ClaimView>) -> bool {
    forall|i: int, j: int|
        0 <= i < j < claims.len() ==> #[trigger] claims[i].name.text()
            != #[trigger] claims[j].name.text()
}

/// The claims by their name texts. Where a name occurs twice the later
/// claim stands; in a claim set none does.
pub open spec fn claims_by_name(claims: Seq<ClaimView>) -> Map<Seq<char>, ClaimView>
    decreases claims.len(),
{
    if claims.len() == 0 {
        Map::empty()
    } else {
        claims_by_name(claims.drop_last()).insert(claims.last().name.text(), claims.last())
    }
}

/// What inserting a claim makes of the claims that are there: a schema
/// failure where the name is taken, else the claims with the new one last.
pub open spec fn insert_claim(claims: Seq<ClaimView>, claim: ClaimView) -> Result<
    Seq<ClaimView>,
    Failure,
> {
    if has_name(claims, claim.name.text()) {
        Err(Failure::Schema)
    } else {
        Ok(claims.push(claim))
    }
}

/// The claims after an insertion: with the new claim last where it was
/// taken in, and as they were where it was refused.
pub open spec fn after_insert(claims: Seq<ClaimView>, claim: ClaimView) -> Seq<ClaimView> {
    match insert_claim(claims, claim) {
        Ok(more) => more,
        Err(_) => claims,
    }
}

/// The claims that the members of a JSON object stand for, in the members'
/// order. Each member is parsed and inserted in turn, and the first member
/// that fails either step decides the failure.
pub open spec fn collect_claims(members: Seq<(Seq<char>, Value)>) -> Result<
    Seq<ClaimView>,
    Failure,
>
    decreases members.len(),
{
    if members.len() == 0 {
        Ok(Seq::empty())
    } else {
        match collect_claims(members.drop_last()) {
            Err(failure) => Err(failure),
            Ok(claims) => match parse_claim(members.last().0, members.last().1) {
                Err(failure) => Err(failure),
                Ok(claim) => insert_claim(claims, claim),
            },
        }
    }
}

/// A failure among the first members of an object is the failure of the
/// whole object.
pub proof fn lemma_collect_failure_stays(members: Seq<(Seq<char>, Value)>, n: int)
    requires
        0 <= n <= members.len(),
        collect_claims(members.take(n)) is Err,
    ensures
        collect_claims(members) == collect_claims(members.take(n)),
    decreases members.len() - n,
{
    if n < members.len() {
        assert(members.take(n + 1).drop_last() =~= members.take(n));
        lemma_collect_failure_stays(members, n + 1);
    } else {
        assert(members.take(n) =~= members);
    }
}

/// The claims that a JSON text stands for: the text is read as one JSON
/// object, whose members are then collected. A text that is not a JSON
/// object is a parse failure that carries the parser's message.
pub open spec fn claims_of_text(text: Seq<char>) -> Result<Seq<ClaimView>, Failure> {
    match json_object_outcome(text) {
        Err(cause) => Err(Failure::Parse(cause)),
        Ok(members) => collect_claims(members),
    }
}

/// The claims that a base64 text stands for: the text is decoded, the
/// bytes are read as UTF-8, and the claims are read from that text.
pub open spec fn claims_of_b64(text: Seq<char>) -> Result<Seq<ClaimView>, Failure> {
    match decoded_text(text) {
        Err(failure) => Err(failure),
        Ok(plain) => claims_of_text(plain),
    }
}

/// A claim as a member of a JSON object: its own JSON object without the
/// braces.
pub open spec fn entry_text(claim: ClaimView) -> Seq<char> {
    fragment(claim).subrange(1, fragment(claim).len() - 1)
}

/// The claims as members of one JSON object, in their order, a comma
/// between each two.
pub open spec fn entries_text(claims: Seq<ClaimView>) -> Seq<char>
    decreases claims.len(),
{
    if claims.len() == 0 {
        Seq::empty()
    } else if claims.len() == 1 {
        entry_text(claims[0])
    } else {
        entries_text(claims.drop_last()) + ","@ + entry_text(claims.last())
    }
}

/// The JSON object that holds the claims, in their order: `{}` for no
/// claim, and nothing between the braces but the members and their commas.
pub open spec fn claims_text(claims: Seq<ClaimView>) -> Seq<char> {
    "{"@ + entries_text(claims) + "}"@
}

/// The claims of a result, in their order, or its failure.
pub open spec fn claims_outcome(r: Result<ClaimSet, JWTError>) -> Result<Seq<ClaimView>, Failure> {
    match r {
        Ok(set) => Ok(set.entries()),
        Err(error) => Err(error@),
    }
}

/// A set of claims, no two of them with the same name text. The claims are
/// kept in the order in which they were inserted.
#[derive(Debug)]
pub struct ClaimSet {
    claims: Vec<Claim>,
}

impl View for ClaimSet {
    type V = Map<Seq<char>, ClaimView>;

    /// The claims by their name texts.
    open spec fn view(&self) -> Map<Seq<char>, ClaimView> {
        claims_by_name(self.entries())
    }
}

impl ClaimSet {
    /// The claims in the order of their insertion.
    pub closed spec fn entries(&self) -> Seq<ClaimView> {
        self.claims@.map_values(|claim: Claim| claim@)
    }

    /// What holds of every claim set: the names are pairwise distinct.
    #[verifier::type_invariant]
    pub open spec fn wf(&self) -> bool {
        distinct_names(self.entries())
    }

    /// The set without claims.
    pub fn new() -> (set: ClaimSet)
        ensures
            set.entries() == Seq::<ClaimView>::empty(),
    {
        ClaimSet { claims: Vec::new() }
    }

    /// The claims of the set, in the order of their insertion.
    pub fn claims(&self) -> (claims: &Vec<Claim>)
        ensures
            claims@.map_values(|claim: Claim| claim@) == self.entries(),
            distinct_names(self.entries()),
    {
        proof {
            use_type_invariant(self);
        }
        &self.claims
    }

    /// Where a claim of that name stands among the claims, if one does.
    fn position(&self, claim_name: &str) -> (at: Option<usize>)
        ensures
            match at {
                Some(i) => i < self.entries().len() && self.entries()[i as int].name.text()
                    == claim_name@,
                None => !has_name(self.entries(), claim_name@),
            },
    {
        let mut i: usize = 0;
        while i < self.claims.len()
            invariant
                i <= self.claims@.len(),
                forall|k: int| 0 <= k < i ==> self.entries()[k].name.text() != claim_name@,
            decreases self.claims@.len() - i,
        {
            if same_text(self.claims[i].claim_name.as_str(), claim_name) {
                return Some(i);
            }
            i += 1;
        }
        None
    }

    /// Inserts a claim. Where a claim of the same name text is in the set,
    /// the insertion fails with a schema error and the set stays as it was.
    pub fn insert(&mut self, claim: Claim) -> (r: Result<(), JWTError>)
        ensures
            match r {
                Ok(()) => insert_claim(old(self).entries(), claim@) is Ok,
                Err(error) => insert_claim(old(self).entries(), claim@) == Err::<
                    Seq<ClaimView>,
                    Failure,
                >(error@),
            },
            final(self).entries() == after_insert(old(self).entries(), claim@),
    {
        proof {
            use_type_invariant(&*self);
        }
        match self.position(claim.claim_name.as_str()) {
            Some(_) => Err(JWTError::SchemaError),
            None => {
                let ghost before = self.entries();
                let mut claims: Vec<Claim> = Vec::new();
                std::mem::swap(&mut self.claims, &mut claims);
                claims.push(claim);
                proof {
                    assert(claims@.map_values(|c: Claim| c@) =~= before.push(claim@));
                }
                std::mem::swap(&mut self.claims, &mut claims);
                Ok(())
            },
        }
    }

    /// The claim of the given name text, or a schema error where the set
    /// has none.
    pub fn get(&self, claim_name: &str) -> (r: Result<&Claim, JWTError>)
        ensures
            match r {
                Ok(claim) => self@.dom().contains(claim_name@) && claim@ == self@[claim_name@],
                Err(error) => !self@.dom().contains(claim_name@) && error@ == Failure::Schema,
            },
    {
        proof {
            use_type_invariant(self);
            lemma_claims_by_name(self.entries());
        }
        match self.position(claim_name) {
            Some(i) => Ok(&self.claims[i]),
            None => Err(JWTError::SchemaError),
        }
    }

    /// The claim set that the members of a JSON object stand for. Each
    /// member is made a claim and inserted, in the members' order; the
    /// first failure ends the work and is the result.
    pub fn from_members(members: Vec<(String, Value)>) -> (r: Result<ClaimSet, JWTError>)
        ensures
            claims_outcome(r) == collect_claims(members_view(members@)),
    {
        let ghost all = members_view(members@);
        let mut result = ClaimSet::new();
        proof {
            assert(all.take(0) =~= Seq::empty());
        }
        for member in it: members
            invariant
                members_view(it.seq()) == all,
                collect_claims(all.take(it.index() as int)) == Ok::<Seq<ClaimView>, Failure>(
                    result.entries(),
                ),
        {
            let ghost n = it.index() as int;
            proof {
                assert(all.take(n + 1).drop_last() =~= all.take(n));
                assert(all.take(n + 1).last() == (member.0@, member.1));
            }
            let claim = match Claim::parse(member.0, member.1) {
                Ok(claim) => claim,
                Err(error) => {
                    proof {
                        lemma_collect_failure_stays(all, n + 1);
                    }
                    return Err(error);
                },
            };
            match result.insert(claim) {
                Ok(()) => {},
                Err(error) => {
                    proof {
                        lemma_collect_failure_stays(all, n + 1);
                    }
                    return Err(error);
                },
            }
        }
        proof {
            assert(all.take(all.len() as int) =~= all);
        }
        Ok(result)
    }
}

impl JsonSerializable for ClaimSet {
    open spec fn text(&self) -> Seq<char> {
        claims_text(self.entries())
    }

    open spec fn text_b64(&self) -> Seq<char> {
        base64_text(encode_utf8(self.text()))
    }

    open spec fn fits_b64(&self) -> bool {
        base64_fits(self.text())
    }

    /// Reads a claim set from the text of a JSON object. A text that is not
    /// a JSON object is a parse error; then each member is made a claim
    /// and inserted, and the first failure is the result.
    fn decode_str(claim_set: &str) -> (r: Result<ClaimSet, JWTError>)
        ensures
            claims_outcome(r) == claims_of_text(claim_set@),
    {
        match parse_object(claim_set) {
            Err(cause) => Err(JWTError::ParseError(cause)),
            Ok(members) => ClaimSet::from_members(members),
        }
    }

    /// Writes the claim set as one JSON object: the claims in the order of
    /// their insertion, each as `"name":value`, with a comma between each
    /// two and nothing else between the braces.
    fn encode_str(&self) -> (out: String)
        ensures
            out@ == claims_text(self.entries()),
    {
        let mut out = String::from_str("{");
        let mut i: usize = 0;
        proof {
            reveal_strlit("{\"");
            reveal_strlit("}");
            assert(self.entries().take(0) =~= Seq::empty());
            assert(out@ =~= "{"@ + entries_text(self.entries().take(0)));
        }
        while i < self.claims.len()
            invariant
                i <= self.claims@.len(),
                self.claims@.len() == self.entries().len(),
                out@ == "{"@ + entries_text(self.entries().take(i as int)),
                "{\""@.len() == 2,
                "}"@.len() == 1,
            decreases self.claims@.len() - i,
        {
            let ghost claim = self.entries()[i as int];
            let ghost before = self.entries().take(i as int);
            proof {
                assert(self.entries().take(i + 1).drop_last() =~= before);
                assert(self.entries().take(i + 1).last() == claim);
            }
            if i > 0 {
                out.append(",");
            }
            let whole = self.claims[i].encode_str();
            let n = whole.as_str().unicode_len();
            out.append(whole.as_str().substring_char(1, n - 1));
            proof {
                assert(out@ =~= "{"@ + entries_text(self.entries().take(i + 1)));
            }
            i += 1;
        }
        proof {
            assert(self.entries().take(i as int) =~= self.entries());
        }
        out.append("}");
        out
    }

    /// Writes the claim set as the base64 text of its JSON text.
    fn encode_b64(&self) -> (out: String)
        ensures
            out@ == base64_text(encode_utf8(claims_text(self.entries()))),
    {
        encode_text(self.encode_str().as_str())
    }

    /// Reads a claim set from the base64 text of its JSON text.
    fn decode_b64(input: &str) -> (r: Result<ClaimSet, JWTError>)
        ensures
            claims_outcome(r) == claims_of_b64(input@),
    {
        match decode_text(input) {
            Ok(plain) => ClaimSet::decode_str(plain.as_str()),
            Err(error) => Err(error),
        }
    }
}

/// In a sequence of claims with distinct names, the claims by name are the
/// claims of the sequence, each under its own name.
pub proof fn lemma_claims_by_name(claims: Seq<ClaimView>)
    requires
        distinct_names(claims),
    ensures
        forall|text: Seq<char>| #[trigger]
            claims_by_name(claims).dom().contains(text) <==> has_name(claims, text),
        forall|i: int|
            0 <= i < claims.len() ==> claims_by_name(claims)[#[trigger] claims[i].name.text()]
                == claims[i],
    decreases claims.len(),
{
    if claims.len() > 0 {
        let front = claims.drop_last();
        let last = claims.last();
        lemma_claims_by_name(front);
        assert forall|text: Seq<char>| #[trigger]
            claims_by_name(claims).dom().contains(text) <==> has_name(claims, text) by {
            if has_name(claims, text) {
                let i = choose|i: int| 0 <= i < claims.len() && claims[i].name.text() == text;
                if i < claims.len() - 1 {
                    assert(front[i].name.text() == text);
                    assert(has_name(front, text));
                    assert(claims_by_name(front).dom().contains(text));
                }
            }
            if claims_by_name(claims).dom().contains(text) {
                if text == last.name.text() {
                    assert(claims[claims.len() - 1].name.text() == text);
                } else {
                    assert(claims_by_name(front).dom().contains(text));
                    assert(has_name(front, text));
                    let i = choose|i: int| 0 <= i < front.len() && front[i].name.text() == text;
                    assert(front[i] == claims[i]);
                    assert(claims[i].name.text() == text);
                }
            }
        }
        assert forall|i: int| 0 <= i < claims.len() implies claims_by_name(claims)[#[trigger] claims[i].name.text()]
            == claims[i] by {
            if i < claims.len() - 1 {
                assert(front[i] == claims[i]);
                assert(claims[i].name.text() != claims[claims.len() - 1].name.text());
            }
        }
    }
}

/// Whether a name is the one that its own text is read as.
pub open spec fn reads_as_itself(name: Name) -> bool {
    parse_name(name.text()) == Ok::<Name, Failure>(name)
}

/// The claims as members of a JSON object: name text and value.
pub open spec fn members_of(claims: Seq<ClaimView>) -> Seq<(Seq<char>, Value)> {
    claims.map_values(|claim: ClaimView| (claim.name.text(), claim.value))
}

/// The values of the claims by their name texts.
pub open spec fn values_by_name(claims: Seq<ClaimView>) -> Map<Seq<char>, Value> {
    claims_by_name(claims).map_values(|claim: ClaimView| claim.value)
}

/// Whether a key is read as a name of that same text.
pub open spec fn keeps_its_text(key: Seq<char>) -> bool {
    match parse_name(key) {
        Ok(name) => name.text() == key,
        Err(_) => false,
    }
}

/// Whether two sequences of members hold the same members, the first of
/// them with no key twice, in whatever order.
pub open spec fn same_members(
    read: Seq<(Seq<char>, Value)>,
    written: Seq<(Seq<char>, Value)>,
) -> bool {
    &&& forall|i: int, j: int| 0 <= i < j < read.len() ==> (#[trigger] read[i]).0 != (#[trigger] read[j]).0
    &&& forall|i: int| 0 <= i < read.len() ==> written.contains(#[trigger] read[i])
    &&& forall|i: int| 0 <= i < written.len() ==> read.contains(#[trigger] written[i])
}

/// How names are read and classified. A text without a colon is a plain
/// name, registered if it is one of the seven registered names and private
/// if it is not. A text with a colon is a public URI name where the URI
/// parser takes it, and a parse failure where it does not.
pub proof fn lemma_name_classification(text: Seq<char>)
    ensures
        !text.contains(':') ==> parse_name(text) == Ok::<Name, Failure>(Name::Plain(text)),
        !text.contains(':') && is_registered(text) ==> classify(Name::Plain(text))
            == ClaimType::Registered,
        !text.contains(':') && !is_registered(text) ==> classify(Name::Plain(text))
            == ClaimType::Private,
        text.contains(':') ==> match uri_outcome(text) {
            Ok(uri) => parse_name(text) == Ok::<Name, Failure>(Name::Uri(uri)) && classify(
                Name::Uri(uri),
            ) == ClaimType::Public,
            Err(cause) => parse_name(text) == Err::<Name, Failure>(Failure::Parse(cause)),
        },
{
}

/// Of two claims with the same name text, inserted one after the other,
/// the second is refused with a schema failure, and the claims are after
/// it what they were before it.
pub proof fn lemma_second_insert_is_refused(
    claims: Seq<ClaimView>,
    first: ClaimView,
    second: ClaimView,
)
    requires
        first.name.text() == second.name.text(),
    ensures
        insert_claim(after_insert(claims, first), second) == Err::<Seq<ClaimView>, Failure>(
            Failure::Schema,
        ),
        after_insert(after_insert(claims, first), second) == after_insert(claims, first),
{
    let between = after_insert(claims, first);
    if insert_claim(claims, first) is Ok {
        assert(between[claims.len() as int].name.text() == second.name.text());
    }
    assert(has_name(between, second.name.text()));
}

/// An insertion keeps the names distinct, whether it takes the claim in
/// or refuses it.
pub proof fn lemma_insert_keeps_names_distinct(claims: Seq<ClaimView>, claim: ClaimView)
    requires
        distinct_names(claims),
    ensures
        distinct_names(after_insert(claims, claim)),
{
    let after = after_insert(claims, claim);
    assert forall|i: int, j: int| 0 <= i < j < after.len() implies #[trigger] after[i].name.text()
        != #[trigger] after[j].name.text() by {
        if j == claims.len() {
            assert(claims[i].name.text() != claim.name.text());
        }
    }
}

/// Where the members of an object all become claims, there is one claim
/// to each member, in the members' order, each the claim that its member
/// stands for, and no two of them have the same name text.
pub proof fn lemma_collected_claims(members: Seq<(Seq<char>, Value)>)
    requires
        collect_claims(members) is Ok,
    ensures
        collect_claims(members)->Ok_0.len() == members.len(),
        distinct_names(collect_claims(members)->Ok_0),
        forall|i: int|
            0 <= i < members.len() ==> parse_claim(members[i].0, members[i].1) == Ok::<
                ClaimView,
                Failure,
            >(#[trigger] collect_claims(members)->Ok_0[i]),
    decreases members.len(),
{
    if members.len() > 0 {
        let front = members.drop_last();
        lemma_collected_claims(front);
        let claims = collect_claims(front)->Ok_0;
        let claim = parse_claim(members.last().0, members.last().1)->Ok_0;
        let all = collect_claims(members)->Ok_0;
        assert(all == claims.push(claim));
        lemma_insert_keeps_names_distinct(claims, claim);
        assert forall|i: int| 0 <= i < members.len() implies parse_claim(
            members[i].0,
            members[i].1,
        ) == Ok::<ClaimView, Failure>(#[trigger] all[i]) by {
            if i < front.len() {
                assert(front[i] == members[i]);
                assert(all[i] == claims[i]);
            }
        }
    }
}

/// Members with no key twice, each key read as a name of that same text,
/// all become claims: one claim to each member, in the members' order.
pub proof fn lemma_collect_distinct_members(members: Seq<(Seq<char>, Value)>)
    requires
        forall|i: int, j: int|
            0 <= i < j < members.len() ==> (#[trigger] members[i]).0 != (#[trigger] members[j]).0,
        forall|i: int| 0 <= i < members.len() ==> keeps_its_text((#[trigger] members[i]).0),
    ensures
        collect_claims(members) matches Ok(claims) && claims.len() == members.len() && forall|
            i: int,
        |
            0 <= i < members.len() ==> parse_claim(members[i].0, members[i].1) == Ok::<
                ClaimView,
                Failure,
            >(#[trigger] claims[i]),
    decreases members.len(),
{
    if members.len() > 0 {
        let front = members.drop_last();
        let last = members.last();
        assert forall|i: int| 0 <= i < front.len() implies keeps_its_text(
            (#[trigger] front[i]).0,
        ) by {
            assert(front[i] == members[i]);
        }
        assert forall|i: int, j: int| 0 <= i < j < front.len() implies (#[trigger] front[i]).0 != (
        #[trigger] front[j]).0 by {
            assert(front[i] == members[i]);
            assert(front[j] == members[j]);
        }
        lemma_collect_distinct_members(front);
        let claims = collect_claims(front)->Ok_0;
        assert(members[members.len() - 1] == last);
        let claim = parse_claim(last.0, last.1)->Ok_0;
        assert(!has_name(claims, claim.name.text())) by {
            if has_name(claims, claim.name.text()) {
                let i = choose|i: int|
                    0 <= i < claims.len() && claims[i].name.text() == claim.name.text();
                assert(front[i] == members[i]);
                assert(parse_claim(members[i].0, members[i].1) == Ok::<ClaimView, Failure>(
                    claims[i],
                ));
                assert(members[i].0 != members[members.len() - 1].0);
            }
        }
        let all = claims.push(claim);
        assert(collect_claims(members) == Ok::<Seq<ClaimView>, Failure>(all));
        assert forall|i: int| 0 <= i < members.len() implies parse_claim(
            members[i].0,
            members[i].1,
        ) == Ok::<ClaimView, Failure>(#[trigger] all[i]) by {
            if i < front.len() {
                assert(front[i] == members[i]);
                assert(all[i] == claims[i]);
            }
        }
    }
}

/// Reading back what was written. Take claims with distinct names, each
/// name the one that its own text is read as, and let the JSON parser read
/// their text as the members that were written, in whatever order. Then
/// reading the text gives claims with the same names and the same values.
pub proof fn lemma_round_trip(claims: Seq<ClaimView>)
    requires
        distinct_names(claims),
        forall|i: int| 0 <= i < claims.len() ==> reads_as_itself(#[trigger] claims[i].name),
        json_object_outcome(claims_text(claims)) matches Ok(read) && same_members(
            read,
            members_of(claims),
        ),
    ensures
        claims_of_text(claims_text(claims)) matches Ok(back) && distinct_names(back)
            && values_by_name(back) == values_by_name(claims),
{
    let written = members_of(claims);
    let read = json_object_outcome(claims_text(claims))->Ok_0;
    assert forall|j: int| 0 <= j < read.len() implies keeps_its_text((#[trigger] read[j]).0) by {
        assert(written.contains(read[j]));
        let i = choose|i: int| 0 <= i < written.len() && written[i] == read[j];
        assert(reads_as_itself(claims[i].name));
    }
    lemma_collect_distinct_members(read);
    let back = collect_claims(read)->Ok_0;
    assert forall|j: int| 0 <= j < back.len() implies #[trigger] back[j].name.text() == read[j].0
        && back[j].value == read[j].1 by {
        assert(parse_claim(read[j].0, read[j].1) == Ok::<ClaimView, Failure>(back[j]));
        assert(keeps_its_text(read[j].0));
    }
    assert(distinct_names(back)) by {
        assert forall|i: int, j: int| 0 <= i < j < back.len() implies #[trigger] back[i].name.text()
            != #[trigger] back[j].name.text() by {
            assert(read[i].0 != read[j].0);
        }
    }
    lemma_claims_by_name(back);
    lemma_claims_by_name(claims);
    assert forall|text: Seq<char>| has_name(back, text) implies has_name(claims, text)
        && claims_by_name(back)[text].value == claims_by_name(claims)[text].value by {
        let j = choose|j: int| 0 <= j < back.len() && back[j].name.text() == text;
        assert(written.contains(read[j]));
        let i = choose|i: int| 0 <= i < written.len() && written[i] == read[j];
        assert(claims[i].name.text() == text);
        assert(claims_by_name(back)[back[j].name.text()] == back[j]);
        assert(claims_by_name(claims)[claims[i].name.text()] == claims[i]);
    }
    assert forall|text: Seq<char>| has_name(claims, text) implies has_name(back, text) by {
        let i = choose|i: int| 0 <= i < claims.len() && claims[i].name.text() == text;
        assert(read.contains(written[i]));
        let j = choose|j: int| 0 <= j < read.len() && read[j] == written[i];
        assert(back[j].name.text() == text);
    }
    assert(values_by_name(back) =~= values_by_name(claims)) by {
        assert forall|text: Seq<char>|
            values_by_name(back).dom().contains(text) <==> values_by_name(claims).dom().contains(
                text,
            ) by {
            assert(claims_by_name(back).dom().contains(text) <==> has_name(back, text));
            assert(claims_by_name(claims).dom().contains(text) <==> has_name(claims, text));
        }
        assert forall|text: Seq<char>| #[trigger]
            values_by_name(back).dom().contains(text) implies values_by_name(back)[text]
            == values_by_name(claims)[text] by {
            assert(claims_by_name(back).dom().contains(text) <==> has_name(back, text));
        }
    }
}

/// A plain name without a colon is the name that its own text is read as.
pub proof fn lemma_plain_name_reads_as_itself(text: Seq<char>)
    requires
        !text.contains(':'),
    ensures
        reads_as_itself(Name::Plain(text)),
{
}

} // verus!
