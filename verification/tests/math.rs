use rsmarkdown::tui::math::latex_to_unicode;

#[test]
fn integral_with_limits() {
    assert_eq!(
        latex_to_unicode(r"\int_a^b f(x)\,dx = F(b) - F(a)"),
        "∫ₐᵇ f(x) dx = F(b) − F(a)"
    );
}

#[test]
fn greek_and_symbols() {
    assert_eq!(latex_to_unicode(r"\lambda = \frac{b}{T}"), "λ = b⁄T");
    assert_eq!(
        latex_to_unicode(r"\alpha \beta \gamma \leq \infty"),
        "α β γ ≤ ∞"
    );
}

#[test]
fn fraction() {
    assert_eq!(latex_to_unicode(r"\frac{1}{2}"), "1⁄2");
    assert_eq!(latex_to_unicode(r"\frac{a+b}{c}"), "(a+b)⁄c");
    assert_eq!(latex_to_unicode(r"\frac{n(n+1)}{2}"), "n(n+1)⁄2");
}

#[test]
fn sqrt_and_binom() {
    assert_eq!(latex_to_unicode(r"\sqrt{x}"), "√x");
    assert_eq!(latex_to_unicode(r"\sqrt{2x+1}"), "√(2x+1)");
    assert_eq!(latex_to_unicode(r"\sqrt[3]{x}"), "∛x");
    assert_eq!(latex_to_unicode(r"\binom{n}{k}"), "(n k)");
}

#[test]
fn sum_with_scripts() {
    assert_eq!(
        latex_to_unicode(r"\sum_{i=1}^n x_i = \frac{n(n+1)}{2}"),
        "Σᵢ₌₁ⁿ xᵢ = n(n+1)⁄2"
    );
}

#[test]
fn text_and_mathbb() {
    assert_eq!(latex_to_unicode(r"\mathbb{R}^n"), "ℝⁿ");
    assert_eq!(latex_to_unicode(r"\text{if } x > 0"), "if x > 0");
}

#[test]
fn matrix() {
    assert_eq!(
        latex_to_unicode(r"\begin{pmatrix} a & b \\ c & d \end{pmatrix}"),
        "(a  b ; c  d)"
    );
}

#[test]
fn unknown_command_falls_back() {
    assert_eq!(latex_to_unicode(r"\foobar{x}"), "foobarx");
    assert_eq!(latex_to_unicode(r"x \dagger y"), "x † y");
}

#[test]
fn stray_dollars_stripped() {
    assert_eq!(latex_to_unicode(r"x^2$ math"), "x² math");
}

#[test]
fn accents() {
    assert_eq!(latex_to_unicode(r"\hat{x}"), "x\u{0302}");
    assert_eq!(latex_to_unicode(r"\vec{F}"), "F\u{20d7}");
}
