# viceptica

The verified core of a small 3D game with a level editor. `src/` is a Verus library:

- `dialog` — the types of dialog graphs and the tokenizer of dialog scripts.
- `input` — key and mouse-button states across frames.
- `ui` — an immediate-mode interface tree: frames, labels, images, sliders, their hit
  tests, the draw list (`ui::draw`) and the editor's windows (`ui::implement`).
- `world`, `render`, `component`, `collision`, `save`, `prefab`, `mesh` — the editor's
  selection rules (clicks, selection boxes, copies), lights of models, frozen frames, the window for a jump,
  camera control modes, doors and triggers, collider slots and which colliders a ray
  looks at, stored colliders, and prefabs: a JSON value model (`prefab::json`, filled by
  serde_json) and the reading of a prefab file's text into its renderables and components,
  with every error.

`app/` is the game itself (OpenGL, windowing, physics and everything in floating point),
built on the library; it reads prefab files from disk and reads the numbers the library
leaves to it. `tests/` runs the library on concrete values.
