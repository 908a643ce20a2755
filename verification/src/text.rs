//! Documents as bytes: where the front matter of a document ends and its body
//! begins.

use vstd::prelude::*;

verus! {

/// The byte of a line feed.
pub const LINE_FEED: u8 = 10;

/// The byte of a carriage return.
pub const CARRIAGE_RETURN: u8 = 13;

/// The byte of a hyphen, of which a delimiter line holds three.
pub const HYPHEN: u8 = 45;

/// Whether a line begins at position `i` of `text`: at its start, or behind a
/// line feed.
pub open spec fn is_line_start(text: Seq<u8>, i: int) -> bool {
    0 <= i <= text.len() && (i == 0 || text[i - 1] == LINE_FEED)
}

/// Whether the line that begins at `i` holds the delimiter `---` and nothing
/// else. The line ends with the text, with a line feed, or with a carriage
/// return and a line feed.
pub open spec fn is_delimiter_line(text: Seq<u8>, i: int) -> bool {
    &&& is_line_start(text, i)
    &&& i + 3 <= text.len()
    &&& text[i] == HYPHEN
    &&& text[i + 1] == HYPHEN
    &&& text[i + 2] == HYPHEN
    &&& (i + 3 == text.len() || text[i + 3] == LINE_FEED || (i + 4 < text.len() && text[i + 3]
        == CARRIAGE_RETURN && text[i + 4] == LINE_FEED))
}

/// The position behind the delimiter line that begins at `i`, its line break
/// included.
pub open spec fn delimiter_line_end(text: Seq<u8>, i: int) -> int {
    if i + 3 == text.len() {
        i + 3
    } else if text[i + 3] == LINE_FEED {
        i + 4
    } else {
        i + 5
    }
}

/// Whether the front matter of `text` is closed by the line that begins at
/// `i`: the first delimiter line behind the first line.
pub open spec fn is_closing_line(text: Seq<u8>, i: int) -> bool {
    &&& 0 < i
    &&& is_delimiter_line(text, i)
    &&& forall|j: int| 0 < j < i ==> !is_delimiter_line(text, j)
}

/// Whether the front matter of `text` is closed at all.
pub open spec fn has_closing_line(text: Seq<u8>) -> bool {
    exists|i: int| is_closing_line(text, i)
}

/// Where the body of `text` begins: behind the closing line of its front
/// matter, or at the end of the text where the front matter is never closed.
pub open spec fn body_start(text: Seq<u8>) -> int {
    if has_closing_line(text) {
        delimiter_line_end(text, choose|i: int| is_closing_line(text, i))
    } else {
        text.len() as int
    }
}

/// The body of a document: all that follows the closing line of its front
/// matter, byte for byte.
pub open spec fn body_of(text: Seq<u8>) -> Seq<u8> {
    text.skip(body_start(text))
}

/// At most one line closes the front matter.
pub proof fn lemma_closing_line_unique(text: Seq<u8>, i: int, j: int)
    requires
        is_closing_line(text, i),
        is_closing_line(text, j),
    ensures
        i == j,
{
}

/// Tells whether the line that begins at `start` is a delimiter line.
fn delimiter_line_at(text: &[u8], start: usize) -> (r: bool)
    requires
        is_line_start(text@, start as int),
    ensures
        r == is_delimiter_line(text@, start as int),
{
    let n = text.len();
    if n < 3 || start > n - 3 {
        return false;
    }
    if text[start] != HYPHEN || text[start + 1] != HYPHEN || text[start + 2] != HYPHEN {
        return false;
    }
    if start + 3 == n {
        return true;
    }
    if text[start + 3] == LINE_FEED {
        return true;
    }
    start + 4 < n && text[start + 3] == CARRIAGE_RETURN && text[start + 4] == LINE_FEED
}

/// Finds where the body of a document begins.
pub fn find_body_start(text: &[u8]) -> (r: usize)
    ensures
        r == body_start(text@),
        r <= text.len(),
{
    let n = text.len();
    let mut i: usize = 0;
    // Skip the first line, whatever it holds.
    while i < n && text[i] != LINE_FEED
        invariant
            i <= n,
            n == text.len(),
            forall|j: int| 0 < j <= i ==> !is_line_start(text@, j),
        decreases n - i,
    {
        i += 1;
    }
    if i == n {
        assert(!has_closing_line(text@)) by {
            assert forall|k: int| !is_closing_line(text@, k) by {
                if 0 < k <= n {
                    assert(!is_line_start(text@, k));
                }
            }
        }
        return n;
    }
    i += 1;
    // `i` is the start of a line, and no delimiter line begins before it.
    loop
        invariant
            0 < i <= n,
            n == text.len(),
            is_line_start(text@, i as int),
            forall|j: int| 0 < j < i ==> !is_delimiter_line(text@, j),
        decreases n - i,
    {
        if delimiter_line_at(text, i) {
            assert(is_closing_line(text@, i as int));
            let ghost chosen = choose|k: int| is_closing_line(text@, k);
            proof {
                lemma_closing_line_unique(text@, i as int, chosen);
            }
            if i + 3 == n {
                return n;
            } else if text[i + 3] == LINE_FEED {
                return i + 4;
            } else {
                return i + 5;
            }
        }
        // Move to the start of the next line.
        let ghost line = i;
        while i < n && text[i] != LINE_FEED
            invariant
                line <= i <= n,
                n == text.len(),
                forall|j: int| line < j <= i ==> !is_line_start(text@, j),
            decreases n - i,
        {
            i += 1;
        }
        if i == n {
            assert(!has_closing_line(text@)) by {
                assert forall|k: int| !is_closing_line(text@, k) by {
                    if line < k <= n {
                        assert(!is_line_start(text@, k));
                    }
                }
            }
            return n;
        }
        i += 1;
    }
}

} // verus!
