# rust_3d

A small OpenGL scene renderer. The crate under `src/` is the part of it that
decides rather than draws, verified with Verus:

- `material`: which texture files the materials of a Wavefront model ask
  for (each name once, next to the model file), and which textures each
  mesh binds;
- `texture`: the table of loaded textures by name, and the texture units a
  mesh binds them to;
- `shader`: the source files and sampler units of the built-in shaders, and
  the objects a compiled program and the off-screen framebuffer consist of;
- `input`: key state, the window input that ends the main loop, and the
  camera moves that held keys ask for;
- `matrix`: where the elements of a 4x4 matrix go when it is transposed.

`app/` is the program around it: the window and event loop (glutin), OpenGL
calls (gl), image and model loading (image, tobj), and all floating-point
vector and matrix arithmetic.
