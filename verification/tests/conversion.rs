use anyhow::{Error, Result};
use rust_markdown_parser::markdown_to_html;

#[test]
fn test_markdown_parsing() -> Result<()> {
    let html1 = markdown_to_html(String::from(
        r#"# Heading 1
## Heading 2

---

This is a paragraph with **bold text** and _italic text_.

- List item 1
- List item 2

1. List item 3
2. List item 4

[Link](https://example.com)

```
# Code block content
print("Hello world!")
```
"#,
    ))
    .map_err(|e| Error::msg(e.message()))?;
    let html2 = markdown_to_html(String::from(
        r#"# Heading 1
## Heading 2
### Heading 3
#### Heading 4
##### Heading 5
###### Heading 6

Hello, 
world

--------
***********
_____

- List **item 1**
- List item 2
+ List item 3
+ List __item 4__
* List *item 5*
* List item 6
1. List _item 7_
2. List item 8

[Link](https://example.com)
```
# Code block content
print("Hello world!")
# Good code
```
"#,
    ))
    .map_err(|e| Error::msg(e.message()))?;
    assert_eq!(
        html1,
        r#"<h1>Heading 1</h1>
<h2>Heading 2</h2>
<hr/>
<p>This is a paragraph with <strong>bold text</strong> and <em>italic text</em>.</p>
<ul>
<li>List item 1</li>
<li>List item 2</li>
</ul>
<ol>
<li>List item 3</li>
<li>List item 4</li>
</ol>
<p><a href="https://example.com">Link</a></p>
<pre><code>
# Code block content
print("Hello world!")
</code></pre>
"#
    );
    assert_eq!(
        html2,
        r#"<h1>Heading 1</h1>
<h2>Heading 2</h2>
<h3>Heading 3</h3>
<h4>Heading 4</h4>
<h5>Heading 5</h5>
<h6>Heading 6</h6>
<p>Hello, </p>
<p>world</p>
<hr/>
<hr/>
<hr/>
<ul>
<li>List <strong>item 1</strong></li>
<li>List item 2</li>
<li>List item 3</li>
<li>List <strong>item 4</strong></li>
<li>List <em>item 5</em></li>
<li>List item 6</li>
</ul>
<ol>
<li>List <em>item 7</em></li>
<li>List item 8</li>
</ol>
<p><a href="https://example.com">Link</a></p>
<pre><code>
# Code block content
print("Hello world!")
# Good code
</code></pre>
"#
    );
    Ok(())
}
