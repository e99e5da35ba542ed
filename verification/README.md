# text_components

Minecraft text components, verified with Verus: a styled text tree, its network NBT
encoding, the MiniMessage template language that builds both, and an SNBT reader.

## Layout

- `src/` — the verified library.
  - `component`, `content`, `format`, `interactivity`, `translation` — the component tree.
  - `duplicate` — deep copies of components and the likeness they keep.
  - `nbt/` — NBT tags, their byte encoding, the component codec's tags, and byte splicing.
  - `grammar/` — the MiniMessage grammar: parser, tag table, errors with suggestions,
    gradients, and the emitter that turns a template into byte segments.
  - `minimessage` — run-time templates: filling into a tree (`fill`) or straight into NBT
    bytes (`fill_nbt`), with the names of their holes (`holes`).
  - `fill` — filling emitted byte segments from named or positional values.
  - `snbt/` — components read back from SNBT text.
  - `decode`, `resolving`, `sorted_names`, `chars` — errors, placeholder resolution,
    sorted name sets, and char helpers.
- `tests/` — tests of the library.
- `app/` — what stays outside the verified part: the floating-point arithmetic of SNBT
  shadow colors, `Display` for the errors, terminal colors, and the serde model.

## What is proved

Most public functions state their result exactly in their `ensures`, over spec functions
and views. Not all do. The MiniMessage parser states its result exactly for plain text, and
tag by tag what each tag does to the parse state: the stack it pushes or pops, and the style
value it sets (a color name, a hex color, a font, a flag, a shadow with its alpha, a literal
insertion); it does not state the whole grammar as one specification. Gradients state the
color of each char. The SNBT hover reader states its result exactly wherever the component
values in it are strings; the compound reader states what each key does, and reads a
compound holding just a quoted `text` entry as that plain text, but does not state every
compound. The emitter states exactly what its byte segments fill to, and a template keeps
that tie between its pieces and its segments.

Among the laws proved: a filled template encodes as its tag model
(`minimessage::lemma_fill_tag`); decoding a component's NBT gives back the component
(`nbt::round_trip::lemma_round_trip`); likeness of components preserves their encoding
(`duplicate::lemma_alike_tag`); the fast encoder of translated messages agrees with the
tree encoder; a template's fast NBT fill equals encoding its filled tree where the two
agree on list shapes (`parity::lemma_fill_nbt_is_encoding`); `Format::mix` has the empty
format as identity and is associative and
idempotent; hex colors and codec names round-trip in both directions; a gradient starts
on its first stop and ends on its last (`grammar::gradient::lemma_gradient_endpoints`); Modified UTF-8 has no NUL byte and
its length is known.

The crate has its own NBT tag model and Modified UTF-8 writer: the NBT crate the
original reads bytes with needs a nightly compiler feature and does not build here.
