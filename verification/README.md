# kirie_scene

Wallpaper scenes: how they are described, and what a renderer does with them.

A scene is a list of objects (images with effect chains, particle systems, texts,
models, groups) described in JSON files. Values in it may be bound to properties
that a user changes while the scene runs, and may be driven by scripts. The
library in `src/` decides everything that does not need a graphics card:

- `json`, `literal`, `number`, `value`, `fields`, `user`: value encodings and
  settings that are bound to properties.
- `material`, `particle`, `object`, `scene`: the parsed files.
- `property`, `resolve`, `assets`, `load`, `bundle`: property bags, resolution,
  files that a scene refers to, and prepared scenes.
- `plan`, `compose`, `building`, `blend`, `bloom`, `order`: the passes of an
  image, how they are chained through buffers, and draw order.
- `varying`, `pipeline`, `params`: shader sources brought to agree, the interface
  of a linked pass, and parameter values.
- `texture`, `registry`, `glyphs`: texture files, the textures of a scene, and
  plotted texts.
- `scripting`, `script_host`, `live`, `renderer`: what scripts see and change, and
  the steps of a frame.
- `parse_laws`, `resolve_laws`: laws that span several modules. Other laws stand
  beside the functions they are about; their names begin with `law_`.

Numbers are kept as recipes (`number::Scalar`): what they are read from, not their
floating-point value. `app/` evaluates the recipes, talks to the graphics card and
to the disk, and carries out what the library decides. The components around it
(file formats, shader translation, video, script engine, particle simulation) are
reached through the trait `parts::Parts`.
