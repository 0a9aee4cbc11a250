use vstd::prelude::*;

verus! {

/// The decimal digits of n, most significant first, without leading zeros.
pub open spec fn decimal(n: nat) -> Seq<char>
    decreases n,
{
    let digit = (('0' as u32) + (n % 10) as u32) as char;
    if n < 10 {
        seq![digit]
    } else {
        decimal(n / 10).push(digit)
    }
}

/// Relies on `u32::to_string` (its `Display`): the decimal digits of n.
#[verifier::external_body]
fn decimal_text(n: u32) -> (r: String)
    ensures
        r@ == decimal(n as nat),
{
    n.to_string()
}

/// The elements, one after another, with a newline between each two.
pub open spec fn joined(elements: Seq<Seq<char>>) -> Seq<char>
    decreases elements.len(),
{
    if elements.len() == 0 {
        Seq::empty()
    } else if elements.len() == 1 {
        elements[0]
    } else {
        joined(elements.drop_last()) + "\n"@ + elements.last()
    }
}

/// The SVG document of a width x height canvas holding `elements`.
pub open spec fn svg_document(width: u32, height: u32, elements: Seq<Seq<char>>) -> Seq<char> {
    "<?xml version=\"1.0\" encoding=\"UTF-8\"?>\n<svg xmlns=\"http://www.w3.org/2000/svg\" width=\""@
        + decimal(width as nat) + "\" height=\""@ + decimal(height as nat) + "\" viewBox=\"0 0 "@
        + decimal(width as nat) + " "@ + decimal(height as nat) + "\">\n"@ + joined(elements)
        + "\n</svg>"@
}

/// Collects SVG elements and writes them out as one document.
pub struct SvgBuilder {
    width: u32,
    height: u32,
    elements: Vec<String>,
}

impl SvgBuilder {
    pub closed spec fn spec_width(&self) -> u32 {
        self.width
    }

    pub closed spec fn spec_height(&self) -> u32 {
        self.height
    }

    /// The text of each element, in the order added.
    pub closed spec fn element_texts(&self) -> Seq<Seq<char>> {
        self.elements@.map_values(|e: String| e@)
    }

    /// An empty document of the given size.
    pub fn new(width: u32, height: u32) -> (r: SvgBuilder)
        ensures
            r.spec_width() == width,
            r.spec_height() == height,
            r.element_texts() == Seq::<Seq<char>>::empty(),
    {
        let r = SvgBuilder { width, height, elements: Vec::new() };
        assert(r.element_texts() =~= Seq::<Seq<char>>::empty());
        r
    }

    /// Appends one element (a line of SVG text).
    pub fn add_element(&mut self, element: String)
        ensures
            final(self).spec_width() == old(self).spec_width(),
            final(self).spec_height() == old(self).spec_height(),
            final(self).element_texts() == old(self).element_texts().push(element@),
    {
        let ghost e = element@;
        self.elements.push(element);
        assert(self.element_texts() =~= old(self).element_texts().push(e));
    }

    /// The document: an XML header, the `svg` element with the canvas size
    /// and view box, the elements one per line, and the closing tag.
    pub fn build(self) -> (r: String)
        ensures
            r@ == svg_document(self.spec_width(), self.spec_height(), self.element_texts()),
    {
        let mut out = String::from_str(
            "<?xml version=\"1.0\" encoding=\"UTF-8\"?>\n<svg xmlns=\"http://www.w3.org/2000/svg\" width=\"",
        );
        out.append(decimal_text(self.width).as_str());
        out.append("\" height=\"");
        out.append(decimal_text(self.height).as_str());
        out.append("\" viewBox=\"0 0 ");
        out.append(decimal_text(self.width).as_str());
        out.append(" ");
        out.append(decimal_text(self.height).as_str());
        out.append("\">\n");
        let ghost head = out@;
        let texts = Ghost(self.element_texts());
        let n = self.elements.len();
        let mut k: usize = 0;
        while k < n
            invariant
                n == self.elements@.len(),
                texts@ == self.elements@.map_values(|e: String| e@),
                k <= n,
                out@ == head + joined(texts@.subrange(0, k as int)),
            decreases n - k,
        {
            let ghost prev = texts@.subrange(0, k as int);
            if k > 0 {
                out.append("\n");
            }
            out.append(self.elements[k].as_str());
            proof {
                let next = texts@.subrange(0, k + 1);
                assert(next.drop_last() =~= prev);
                assert(next.last() == self.elements@[k as int]@);
                if k == 0 {
                    assert(prev =~= Seq::<Seq<char>>::empty());
                    assert(joined(next) == next[0]);
                }
            }
            k = k + 1;
        }
        out.append("\n</svg>");
        assert(texts@.subrange(0, n as int) =~= texts@);
        out
    }
}

} // verus!
