use crate::b64::{base64_text, encode_text};
use crate::claims::{claims_of_b64, claims_of_text, claims_text, ClaimSet, ClaimView};
use crate::err::{Failure, JWTError};
use crate::header::{header_of_b64, header_of_text, header_text, Alg, Cty, JWTHeader, Typ};
use crate::traits::JsonSerializable;
use vstd::prelude::*;
use vstd::string::StringExecFns;
use vstd::utf8::encode_utf8;

verus! {

/// A token: a header and a set of claims.
#[derive(Debug)]
pub struct JWT {
    pub header: JWTHeader,
    pub claim_set: ClaimSet,
}

/// A token as a mathematical value: its header, and its claims in the
/// order of the claim set.
pub struct TokenView {
    pub header: JWTHeader,
    pub claims: Seq<ClaimView>,
}

impl View for JWT {
    type V = TokenView;

    open spec fn view(&self) -> TokenView {
        TokenView { header: self.header, claims: self.claim_set.entries() }
    }
}

/// A character that may stand anywhere in a written token and means
/// nothing: a space, a line feed or a carriage return.
pub open spec fn is_blank(c: char) -> bool {
    c == ' ' || c == '\n' || c == '\r'
}

/// A text without its blank characters.
pub open spec fn strip_blanks(text: Seq<char>) -> Seq<char> {
    text.filter(|c: char| !is_blank(c))
}

/// The segments of a text: what stands before its first dot, and then the
/// segments of what follows that dot. A text without a dot is one segment.
pub open spec fn segments(text: Seq<char>) -> Seq<Seq<char>>
    decreases text.len(),
    via segments_decreases
{
    match text.index_of_first('.') {
        None => seq![text],
        Some(dot) => seq![text.take(dot)] + segments(text.skip(dot + 1)),
    }
}

#[via_fn]
proof fn segments_decreases(text: Seq<char>) {
    text.index_of_first_ensures('.');
}

/// The components of a written token: its segments, each without blanks.
pub open spec fn components(text: Seq<char>) -> Seq<Seq<char>> {
    segments(text).map_values(|segment: Seq<char>| strip_blanks(segment))
}

/// The three components of a written token, or a schema failure where it
/// does not have exactly three segments.
pub open spec fn split_token(text: Seq<char>) -> Result<Seq<Seq<char>>, Failure> {
    if segments(text).len() == 3 {
        Ok(components(text))
    } else {
        Err(Failure::Schema)
    }
}

/// The texts of some strings.
pub open spec fn texts(strings: Seq<String>) -> Seq<Seq<char>> {
    strings.map_values(|s: String| s@)
}

/// The components of a result, or its failure.
pub open spec fn split_outcome(r: Result<Vec<String>, JWTError>) -> Result<
    Seq<Seq<char>>,
    Failure,
> {
    match r {
        Ok(parts) => Ok(texts(parts@)),
        Err(error) => Err(error@),
    }
}

/// The token of a result, or its failure.
pub open spec fn token_outcome(r: Result<JWT, JWTError>) -> Result<TokenView, Failure> {
    match r {
        Ok(token) => Ok(token@),
        Err(error) => Err(error@),
    }
}

/// The token that a header and claims stand for, each read or failed: the
/// header's failure comes first.
pub open spec fn assemble(
    header: Result<JWTHeader, Failure>,
    claims: Result<Seq<ClaimView>, Failure>,
) -> Result<TokenView, Failure> {
    match header {
        Err(failure) => Err(failure),
        Ok(header) => match claims {
            Err(failure) => Err(failure),
            Ok(claims) => Ok(TokenView { header, claims }),
        },
    }
}

/// The token that a plain text stands for: the text must have three
/// segments; the first, without blanks, is read as a header, the second as
/// a claim set, and the third is not read.
pub open spec fn token_of_text(text: Seq<char>) -> Result<TokenView, Failure> {
    match split_token(text) {
        Err(failure) => Err(failure),
        Ok(parts) => assemble(header_of_text(parts[0]), claims_of_text(parts[1])),
    }
}

/// The token that a base64 text stands for: as for a plain text, with the
/// header and the claim set each read from base64.
pub open spec fn token_of_b64(text: Seq<char>) -> Result<TokenView, Failure> {
    match split_token(text) {
        Err(failure) => Err(failure),
        Ok(parts) => assemble(header_of_b64(parts[0]), claims_of_b64(parts[1])),
    }
}

/// What a written token has between its parts: a dot between two line
/// feeds.
pub open spec fn separator() -> Seq<char> {
    "\n.\n"@
}

impl JWT {
    /// Splits a written token at its dots and takes the blanks out of each
    /// part. A token that does not have exactly three parts is a schema
    /// error.
    pub fn split_into_components(input: &str) -> (r: Result<Vec<String>, JWTError>)
        ensures
            split_outcome(r) == split_token(input@),
    {
        let mut parts: Vec<String> = Vec::new();
        let mut current = String::new();
        proof {
            assert(input@.take(0) =~= Seq::<char>::empty());
            Seq::<char>::empty().index_of_first_ensures('.');
            reveal(Seq::filter);
            assert(components(Seq::<char>::empty()) =~= texts(parts@).push(current@));
        }
        for c in it: input.chars()
            invariant
                it.seq() == input@,
                components(input@.take(it.index() as int)) == texts(parts@).push(current@),
        {
            let ghost read = input@.take(it.index() as int);
            let ghost before = texts(parts@).push(current@);
            let ghost kept = current@;
            proof {
                assert(input@.take(it.index() + 1) =~= read.push(c));
                lemma_segments_push(read, c);
                lemma_strip_push(segments(read).last(), c);
                assert(before.len() == segments(read).len());
                assert(before.last() == strip_blanks(segments(read).last()));
                assert(forall|j: int|
                    0 <= j < before.len() ==> before[j] == strip_blanks(
                        #[trigger] segments(read)[j],
                    ));
            }
            if c == '.' {
                parts.push(current);
                current = String::new();
                proof {
                    reveal(Seq::filter);
                    assert(components(read.push(c)) =~= texts(parts@).push(current@));
                }
            } else if c != ' ' && c != '\n' && c != '\r' {
                current.push(c);
                proof {
                    assert(texts(parts@).push(current@) =~= before.update(
                        before.len() - 1,
                        kept.push(c),
                    ));
                    assert(components(read.push(c)) =~= before.update(
                        before.len() - 1,
                        kept.push(c),
                    ));
                }
            } else {
                proof {
                    assert(components(read.push(c)) =~= before);
                }
            }
        }
        let ghost unfinished = texts(parts@);
        proof {
            assert(input@.take(input@.len() as int) =~= input@);
        }
        parts.push(current);
        proof {
            assert(texts(parts@) =~= unfinished.push(current@));
            assert(texts(parts@).len() == segments(input@).len());
        }
        if parts.len() != 3 {
            return Err(JWTError::SchemaError);
        }
        Ok(parts)
    }

    /// The token without claims, unsecured.
    pub fn new() -> (token: JWT)
        ensures
            token@ == (TokenView {
                header: JWTHeader { typ: Typ::Unset, cty: Cty::Unset, alg: Alg::Unsecured },
                claims: Seq::empty(),
            }),
    {
        JWT {
            header: JWTHeader { typ: Typ::Unset, alg: Alg::Unsecured, cty: Cty::Unset },
            claim_set: ClaimSet::new(),
        }
    }

    /// The unsecured token with the claims that a JSON text stands for. It
    /// fails where reading the claims does, with the same error.
    pub fn from_plain_str(claims_set: &str) -> (r: Result<JWT, JWTError>)
        ensures
            token_outcome(r) == assemble(
                Ok(JWTHeader { typ: Typ::Unset, cty: Cty::Unset, alg: Alg::Unsecured }),
                claims_of_text(claims_set@),
            ),
    {
        match ClaimSet::decode_str(claims_set) {
            Ok(claim_set) => Ok(
                JWT {
                    header: JWTHeader { typ: Typ::Unset, alg: Alg::Unsecured, cty: Cty::Unset },
                    claim_set,
                },
            ),
            Err(error) => Err(error),
        }
    }
}

impl JsonSerializable for JWT {
    open spec fn text(&self) -> Seq<char> {
        header_text(self.header) + separator() + self.claim_set.text() + separator()
    }

    open spec fn text_b64(&self) -> Seq<char> {
        base64_text(encode_utf8(header_text(self.header))) + separator()
            + self.claim_set.text_b64() + separator()
    }

    open spec fn fits_b64(&self) -> bool {
        self.claim_set.fits_b64()
    }

    /// Writes the token as plain text: the header, the claim set and an
    /// empty signature, a dot between two line feeds after each of the
    /// first two.
    fn encode_str(&self) -> (out: String)
        ensures
            out@ == header_text(self.header) + separator() + claims_text(self.claim_set.entries())
                + separator(),
    {
        let mut out = self.header.encode_str();
        out.append("\n.\n");
        out.append(self.claim_set.encode_str().as_str());
        out.append("\n.\n");
        out
    }

    /// Writes the token as base64 text: as the plain text, with the header
    /// and the claim set each in base64.
    fn encode_b64(&self) -> (out: String)
        ensures
            out@ == base64_text(encode_utf8(header_text(self.header))) + separator() + base64_text(
                encode_utf8(claims_text(self.claim_set.entries())),
            ) + separator(),
    {
        let mut out = self.header.encode_b64();
        out.append("\n.\n");
        out.append(encode_text(self.claim_set.encode_str().as_str()).as_str());
        out.append("\n.\n");
        out
    }

    /// Reads a token from base64 text. The text is split first; then the
    /// header is read, then the claim set; the first failure is the result.
    fn decode_b64(input: &str) -> (r: Result<JWT, JWTError>)
        ensures
            token_outcome(r) == token_of_b64(input@),
    {
        let components = match JWT::split_into_components(input) {
            Ok(components) => components,
            Err(error) => return Err(error),
        };
        assert(texts(components@).len() == 3);
        let header = match JWTHeader::decode_b64(components[0].as_str()) {
            Ok(header) => header,
            Err(error) => return Err(error),
        };
        let claim_set = match ClaimSet::decode_b64(components[1].as_str()) {
            Ok(claim_set) => claim_set,
            Err(error) => return Err(error),
        };
        let mut jwt = JWT::new();
        jwt.header = header;
        jwt.claim_set = claim_set;
        Ok(jwt)
    }

    /// Reads a token from plain text. The text is split first; then the
    /// header is read, then the claim set; the first failure is the result.
    fn decode_str(input: &str) -> (r: Result<JWT, JWTError>)
        ensures
            token_outcome(r) == token_of_text(input@),
    {
        let components = match JWT::split_into_components(input) {
            Ok(components) => components,
            Err(error) => return Err(error),
        };
        assert(texts(components@).len() == 3);
        let header = match JWTHeader::decode_str(components[0].as_str()) {
            Ok(header) => header,
            Err(error) => return Err(error),
        };
        let claim_set = match ClaimSet::decode_str(components[1].as_str()) {
            Ok(claim_set) => claim_set,
            Err(error) => return Err(error),
        };
        let mut jwt = JWT::new();
        jwt.header = header;
        jwt.claim_set = claim_set;
        Ok(jwt)
    }
}

/// The parts joined again, a dot between each two.
pub open spec fn join_dots(parts: Seq<Seq<char>>) -> Seq<char>
    decreases parts.len(),
{
    if parts.len() == 0 {
        Seq::empty()
    } else if parts.len() == 1 {
        parts[0]
    } else {
        parts[0] + seq!['.'] + join_dots(parts.drop_first())
    }
}

/// Whether none of the parts holds a dot.
pub open spec fn no_dots(parts: Seq<Seq<char>>) -> bool {
    forall|i: int| 0 <= i < parts.len() ==> !(#[trigger] parts[i]).contains('.')
}

/// The number of dots in a text.
pub open spec fn dots(text: Seq<char>) -> nat {
    text.filter(|c: char| c == '.').len()
}

/// A text with one more character has the segments of the text, with a new
/// empty segment after a dot, and with the character at the end of the
/// last segment otherwise.
pub proof fn lemma_segments_push(text: Seq<char>, c: char)
    ensures
        segments(text).len() >= 1,
        segments(text.push(c)) == if c == '.' {
            segments(text).push(Seq::empty())
        } else {
            segments(text).update(segments(text).len() - 1, segments(text).last().push(c))
        },
    decreases text.len(),
{
    let more = text.push(c);
    text.index_of_first_ensures('.');
    more.index_of_first_ensures('.');
    match text.index_of_first('.') {
        Some(dot) => {
            assert(more[dot] == '.');
            assert(more.contains('.'));
            let found = more.index_of_first('.').unwrap();
            assert(found == dot) by {
                if found < dot {
                    assert(text[found] == more[found]);
                }
                if dot < found {
                    assert(more[dot] == '.');
                }
            }
            assert(more.take(dot) =~= text.take(dot));
            assert(more.skip(dot + 1) =~= text.skip(dot + 1).push(c));
            lemma_segments_push(text.skip(dot + 1), c);
            let head = seq![text.take(dot)];
            let tail = segments(text.skip(dot + 1));
            if c == '.' {
                assert(head + tail.push(Seq::empty()) =~= (head + tail).push(Seq::empty()));
            } else {
                assert(head + tail.update(tail.len() - 1, tail.last().push(c)) =~= (head
                    + tail).update((head + tail).len() - 1, (head + tail).last().push(c)));
            }
        },
        None => {
            if c == '.' {
                assert(more[text.len() as int] == '.');
                assert(more.contains('.'));
                let found = more.index_of_first('.').unwrap();
                assert(found == text.len()) by {
                    if found < text.len() {
                        assert(text[found] == '.');
                        assert(text.contains('.'));
                    }
                }
                assert(more.take(found) =~= text);
                assert(more.skip(found + 1) =~= Seq::<char>::empty());
                Seq::<char>::empty().index_of_first_ensures('.');
                assert(segments(Seq::<char>::empty()) =~= seq![Seq::<char>::empty()]);
                assert(seq![text] + seq![Seq::<char>::empty()] =~= seq![text].push(Seq::empty()));
            } else {
                assert(!more.contains('.')) by {
                    if more.contains('.') {
                        let i = choose|i: int| 0 <= i < more.len() && more[i] == '.';
                        assert(text[i] == '.');
                        assert(text.contains('.'));
                    }
                }
                assert(seq![more] =~= seq![text].update(0, text.push(c)));
            }
        },
    }
}

/// Of a text with one more character, the blanks taken out: the character
/// is kept unless it is a blank.
pub proof fn lemma_strip_push(text: Seq<char>, c: char)
    ensures
        strip_blanks(text.push(c)) == if is_blank(c) {
            strip_blanks(text)
        } else {
            strip_blanks(text).push(c)
        },
{
    reveal(Seq::filter);
    assert(text.push(c).drop_last() =~= text);
}

/// What remains of a text without its blanks are characters of the text,
/// none of them a blank.
pub proof fn lemma_strip_keeps(text: Seq<char>, c: char)
    requires
        strip_blanks(text).contains(c),
    ensures
        text.contains(c),
        !is_blank(c),
    decreases text.len(),
{
    reveal(Seq::filter);
    if text.len() > 0 {
        let front = text.drop_last();
        assert(front.push(text.last()) =~= text);
        lemma_strip_push(front, text.last());
        let kept = strip_blanks(text);
        let at = choose|i: int| 0 <= i < kept.len() && kept[i] == c;
        if !is_blank(text.last()) && at == kept.len() - 1 {
            assert(text[text.len() - 1] == c);
        } else {
            assert(strip_blanks(front)[at] == c);
            lemma_strip_keeps(front, c);
            let i = choose|i: int| 0 <= i < front.len() && front[i] == c;
            assert(text[i] == c);
        }
    }
}

/// The components of a written token are as many as its segments, and
/// none of them holds a blank or a dot.
pub proof fn lemma_components_are_clean(text: Seq<char>)
    ensures
        components(text).len() == segments(text).len(),
        forall|i: int, c: char|
            0 <= i < components(text).len() && (#[trigger] components(text)[i]).contains(c)
                ==> !#[trigger] is_blank(c) && c != '.',
{
    lemma_segments_cut_at_dots(text);
    assert forall|i: int, c: char|
        0 <= i < components(text).len() && (#[trigger] components(text)[i]).contains(
            c,
        ) implies !#[trigger] is_blank(c) && c != '.' by {
        lemma_strip_keeps(segments(text)[i], c);
    }
}

/// The segments of a text cut it at its dots: there is at least one, none
/// holds a dot, and joined with dots they are the text again.
pub proof fn lemma_segments_cut_at_dots(text: Seq<char>)
    ensures
        segments(text).len() >= 1,
        no_dots(segments(text)),
        join_dots(segments(text)) == text,
    decreases text.len(),
{
    text.index_of_first_ensures('.');
    match text.index_of_first('.') {
        None => {
            assert(segments(text)[0] == text);
        },
        Some(dot) => {
            let head = text.take(dot);
            let rest = segments(text.skip(dot + 1));
            lemma_segments_cut_at_dots(text.skip(dot + 1));
            let all = seq![head] + rest;
            assert(all.drop_first() =~= rest);
            assert(all[0] == head);
            assert(join_dots(all) == head + seq!['.'] + join_dots(rest));
            assert(head + seq!['.'] + text.skip(dot + 1) =~= text);
            assert(!head.contains('.')) by {
                if head.contains('.') {
                    let j = choose|j: int| 0 <= j < head.len() && head[j] == '.';
                    assert(text[j] == '.');
                }
            }
            assert forall|i: int| 0 <= i < all.len() implies !(#[trigger] all[i]).contains('.') by {
                if i > 0 {
                    assert(all[i] == rest[i - 1]);
                }
            }
        },
    }
}

/// There is one way only to cut a text at all its dots: parts without
/// dots that are the text when joined with dots are its segments.
pub proof fn lemma_segments_are_unique(text: Seq<char>, parts: Seq<Seq<char>>)
    requires
        parts.len() >= 1,
        no_dots(parts),
        join_dots(parts) == text,
    ensures
        segments(text) == parts,
    decreases parts.len(),
{
    text.index_of_first_ensures('.');
    let head = parts[0];
    if parts.len() == 1 {
        assert(seq![text] =~= parts);
    } else {
        let rest = parts.drop_first();
        let tail = join_dots(rest);
        assert(text == head + seq!['.'] + tail);
        assert(text[head.len() as int] == '.');
        assert(text.contains('.'));
        let dot = text.index_of_first('.')->0;
        assert(dot == head.len()) by {
            if dot < head.len() {
                assert(head[dot] == text[dot]);
                assert(head.contains('.'));
            }
        }
        assert(text.take(dot) =~= head);
        assert(text.skip(dot + 1) =~= tail);
        assert(no_dots(rest)) by {
            assert forall|i: int| 0 <= i < rest.len() implies !(#[trigger] rest[i]).contains(
                '.',
            ) by {
                assert(rest[i] == parts[i + 1]);
            }
        }
        lemma_segments_are_unique(tail, rest);
        assert(seq![head] + rest =~= parts);
    }
}

/// A text has one segment more than it has dots.
pub proof fn lemma_segments_count(text: Seq<char>)
    ensures
        segments(text).len() == dots(text) + 1,
    decreases text.len(),
{
    reveal(Seq::filter);
    if text.len() == 0 {
        text.index_of_first_ensures('.');
    } else {
        let front = text.drop_last();
        assert(front.push(text.last()) =~= text);
        lemma_segments_count(front);
        lemma_segments_push(front, text.last());
    }
}

/// A written token that does not have exactly three segments, which is
/// to say exactly two dots, is a schema failure, whatever its parts hold.
pub proof fn lemma_segment_gate(text: Seq<char>)
    requires
        dots(text) != 2,
    ensures
        segments(text).len() != 3,
        token_of_text(text) == Err::<TokenView, Failure>(Failure::Schema),
        token_of_b64(text) == Err::<TokenView, Failure>(Failure::Schema),
{
    lemma_segments_count(text);
}

} // verus!
